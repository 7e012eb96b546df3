//! The server: partitions, their file system drivers, and the requests of their clients.
pub mod buffer;
pub mod coherence;
pub mod names;
pub mod pending;
pub mod probing;
pub mod proxy;
pub mod reader;
pub mod scan;
pub mod server;
pub mod serving;
pub mod sniffer;
pub mod volume;

pub use buffer::{CacheBlock, RequestContext};
pub use proxy::{PartitionMetadata, PartitionProxy};

use crate::cap::{CapPtr, Endpoint, SharedMemory, ShmParams, CAP_NULL};
use crate::config::{ConfigView, DriverView, FSConfig};
use crate::error::Error;
use crate::probe::fs::FileSystemType;
use crate::text;
use buffer::{BufferCache, CacheState};
use names::NameTable;
use proxy::PartitionView;
use std::collections::{BTreeMap, BTreeSet, VecDeque};
use volume::ServiceState;
use vstd::prelude::*;

verus! {

/// Counters of the capabilities that the server handles. They stop at the largest number.
#[derive(Debug)]
pub struct FossilResourceLedger {
    pub mount_waiters_queued: usize,
    pub mount_waiters_woken: usize,
    pub partition_endpoint_mints: usize,
    pub mount_reply_slots_live: BTreeSet<CapPtr>,
}

/// The counters as a mathematical object.
#[verifier::ext_equal]
pub struct LedgerView {
    pub mount_waiters_queued: usize,
    pub mount_waiters_woken: usize,
    pub partition_endpoint_mints: usize,
    pub mount_reply_slots_live: Set<CapPtr>,
}

impl LedgerView {
    /// Nothing counted.
    pub open spec fn empty() -> LedgerView {
        LedgerView {
            mount_waiters_queued: 0,
            mount_waiters_woken: 0,
            partition_endpoint_mints: 0,
            mount_reply_slots_live: Set::empty(),
        }
    }
}

impl View for FossilResourceLedger {
    type V = LedgerView;

    open spec fn view(&self) -> LedgerView {
        LedgerView {
            mount_waiters_queued: self.mount_waiters_queued,
            mount_waiters_woken: self.mount_waiters_woken,
            partition_endpoint_mints: self.partition_endpoint_mints,
            mount_reply_slots_live: self.mount_reply_slots_live@,
        }
    }
}

impl Default for FossilResourceLedger {
    fn default() -> (r: Self)
        ensures
            r@ == LedgerView::empty(),
    {
        FossilResourceLedger {
            mount_waiters_queued: 0,
            mount_waiters_woken: 0,
            partition_endpoint_mints: 0,
            mount_reply_slots_live: BTreeSet::new(),
        }
    }
}

/// Where the server is called, and where it answers.
#[derive(Debug, Clone, Copy, PartialEq, Eq, Structural)]
pub struct FossilIpc {
    pub endpoint: Endpoint,
    pub reply: CapPtr,
    pub recv: CapPtr,
    pub running: bool,
}

/// A block device that the server is connected to.
#[derive(Debug, Clone, Copy, PartialEq, Eq, Structural)]
pub struct BlockDevice {
    pub block_size: u32,
    pub total_sectors: u64,
    /// Whether requests can be submitted to the device.
    pub has_ring: bool,
}

/// The badge that the first partition gets.
pub const FIRST_PARTITION_BADGE: usize = 0x1000;

/// The bit by which the numbers of requests to devices differ from badges.
pub const HARDWARE_REQUEST: usize = usize::MAX / 2 + 1;

/// The size of the blocks that the server caches.
pub const CACHE_BLOCK_SIZE: usize = 4096;

/// The state of the server.
pub struct FossilServer {
    pub ipc: FossilIpc,
    pub partitions: BTreeMap<usize, PartitionProxy>,
    pub name_to_badge: NameTable,
    pub partition_fs_endpoints: BTreeMap<usize, Endpoint>,
    pub partition_driver_pids: BTreeMap<usize, usize>,
    pub partition_driver_states: BTreeMap<usize, ServiceState>,
    /// The clients that have a ring.
    pub client_rings: BTreeSet<usize>,
    pub client_shms: BTreeMap<usize, ShmParams>,
    pub device_clients: BTreeMap<usize, BlockDevice>,
    pub probed_hardware: BTreeSet<usize>,
    pub inflight_requests: BTreeMap<usize, RequestContext>,
    pub fs_config: Option<FSConfig>,
    pub driver_to_partition: BTreeMap<usize, usize>,
    pub next_partition_badge: usize,
    pub pending_devices: VecDeque<String>,
    pub pending_mount_replies: BTreeMap<usize, VecDeque<CapPtr>>,
    pub buffer_cache: BufferCache,
    pub global_shm: Option<SharedMemory>,
    pub resource_ledger: FossilResourceLedger,
}

/// The state of the server as a mathematical object.
#[verifier::ext_equal]
pub struct ServerState {
    pub ipc: FossilIpc,
    /// The partitions by badge.
    pub partitions: Map<usize, PartitionView>,
    /// The badges by partition name.
    pub names: Map<Seq<char>, usize>,
    /// The endpoints of the drivers that run, by partition.
    pub fs_endpoints: Map<usize, Endpoint>,
    /// The processes of the drivers, by partition.
    pub driver_pids: Map<usize, usize>,
    /// What the drivers last reported, by partition.
    pub driver_states: Map<usize, ServiceState>,
    pub client_rings: Set<usize>,
    pub client_shms: Map<usize, ShmParams>,
    pub device_clients: Map<usize, BlockDevice>,
    pub probed_hardware: Set<usize>,
    /// The requests that devices work on, by the number that the device knows them by.
    pub inflight: Map<usize, RequestContext>,
    pub config: Option<ConfigView>,
    /// The partitions by driver process.
    pub driver_to_partition: Map<usize, usize>,
    pub next_badge: usize,
    pub pending_devices: Seq<Seq<char>>,
    /// Who waits for a driver, in the order of their requests, by partition.
    pub pending_mounts: Map<usize, Seq<CapPtr>>,
    pub cache: CacheState,
    pub global_shm: Option<SharedMemory>,
    pub ledger: LedgerView,
}

impl View for FossilServer {
    type V = ServerState;

    open spec fn view(&self) -> ServerState {
        ServerState {
            ipc: self.ipc,
            partitions: self.partitions@.map_values(|p: PartitionProxy| p@),
            names: self.name_to_badge@,
            fs_endpoints: self.partition_fs_endpoints@,
            driver_pids: self.partition_driver_pids@,
            driver_states: self.partition_driver_states@,
            client_rings: self.client_rings@,
            client_shms: self.client_shms@,
            device_clients: self.device_clients@,
            probed_hardware: self.probed_hardware@,
            inflight: self.inflight_requests@,
            config: match self.fs_config {
                Some(c) => Some(c@),
                None => None,
            },
            driver_to_partition: self.driver_to_partition@,
            next_badge: self.next_partition_badge,
            pending_devices: text::texts(self.pending_devices@),
            pending_mounts: self.pending_mount_replies@.map_values(|q: VecDeque<CapPtr>| q@),
            cache: self.buffer_cache@,
            global_shm: self.global_shm,
            ledger: self.resource_ledger@,
        }
    }
}

/// The name under which a driver says that it serves a file system.
pub open spec fn fs_key(fs_type: FileSystemType) -> Option<Seq<char>> {
    match fs_type {
        FileSystemType::Fat16 => Some("fat16"@),
        FileSystemType::Fat32 => Some("fat32"@),
        FileSystemType::ExFat => Some("exfat"@),
        FileSystemType::Ext2 => Some("ext2"@),
        FileSystemType::Ext3 => Some("ext3"@),
        FileSystemType::Ext4 => Some("ext4"@),
        FileSystemType::InitrdFS => Some("initrdfs"@),
        FileSystemType::Unknown => None,
    }
}

/// The binary of the first driver that serves `key`.
pub open spec fn first_driver(drivers: Seq<DriverView>, key: Seq<char>) -> Option<Seq<char>>
    decreases drivers.len(),
{
    if drivers.len() == 0 {
        None
    } else if drivers[0].compatible.contains(key) {
        Some(drivers[0].binary)
    } else {
        first_driver(drivers.skip(1), key)
    }
}

/// The binary of the driver that is configured for a file system.
pub open spec fn configured_driver(
    config: Option<ConfigView>,
    fs_type: FileSystemType,
) -> Option<Seq<char>> {
    match (fs_key(fs_type), config) {
        (Some(key), Some(c)) => first_driver(c.filesystems, key),
        _ => None,
    }
}

/// The error of a result without a value.
pub open spec fn failure(r: Result<(), Error>) -> Option<Error> {
    match r {
        Ok(_) => None,
        Err(e) => Some(e),
    }
}

/// Which results starting a process may give, for a binary.
pub type SpawnAnswers = spec_fn(String, Result<usize, Error>) -> bool;

/// The results that a closure which starts processes may give.
pub open spec fn spawn_answers<S: FnOnce(String) -> Result<usize, Error>>(
    spawn: S,
) -> SpawnAnswers {
    |binary: String, out: Result<usize, Error>| call_ensures(spawn, (binary,), out)
}

/// What is needed of the closure that starts a partition's driver: it may be asked for the
/// configured binary, and that only where the partition has no driver yet.
pub open spec fn starts<S: FnOnce(String) -> Result<usize, Error>>(
    spawn: S,
    state: ServerState,
    badge: usize,
    fs_type: FileSystemType,
) -> bool {
    forall|binary: String|
        !state.driver_pids.contains_key(badge) && configured_driver(state.config, fs_type) == Some(
            binary@,
        ) ==> #[trigger] call_requires(spawn, (binary,))
}

/// Whether `binary` is configured for some file system.
pub open spec fn is_driver(config: Option<ConfigView>, binary: Seq<char>) -> bool {
    exists|fs_type: FileSystemType| #[trigger] configured_driver(config, fs_type) == Some(binary)
}

/// What is needed of the closure that starts the drivers of many partitions: it may be asked for
/// the binaries that are configured, and for no others.
pub open spec fn spawns<S: FnMut(String) -> Result<usize, Error>>(
    spawn: S,
    config: Option<ConfigView>,
) -> bool {
    forall|binary: String|
        is_driver(config, binary@) ==> #[trigger] call_requires(spawn, (binary,))
}

impl ServerState {
    /// The server after a driver was started as process `pid` for a partition.
    pub open spec fn with_driver(self, badge: usize, pid: usize) -> ServerState {
        ServerState {
            driver_to_partition: self.driver_to_partition.insert(pid, badge),
            driver_pids: self.driver_pids.insert(badge, pid),
            driver_states: self.driver_states.insert(badge, ServiceState::Starting),
            ..self
        }
    }

    /// The bookkeeping agrees: names lead to partitions of that name, a driver's process leads to a
    /// partition whose driver it is, a partition with a driver has a process and a state, none but
    /// such partitions have an endpoint, whoever waits waits for a partition, and no client is told
    /// a physical address.
    pub open spec fn consistent(self) -> bool {
        &&& forall|name: Seq<char>| #[trigger]
            self.names.contains_key(name) ==> self.partitions.contains_key(self.names[name])
                && self.partitions[self.names[name]].name == name
        &&& forall|pid: usize| #[trigger]
            self.driver_to_partition.contains_key(pid) ==> self.partitions.contains_key(
                self.driver_to_partition[pid],
            ) && self.driver_pids.contains_key(self.driver_to_partition[pid])
                && self.driver_pids[self.driver_to_partition[pid]] == pid
        &&& forall|badge: usize| #[trigger]
            self.driver_pids.contains_key(badge) ==> self.driver_states.contains_key(badge)
                && self.driver_to_partition.contains_key(self.driver_pids[badge])
        &&& forall|badge: usize| #[trigger]
            self.fs_endpoints.contains_key(badge) ==> self.driver_pids.contains_key(badge)
        &&& forall|badge: usize| #[trigger]
            self.pending_mounts.contains_key(badge) ==> self.partitions.contains_key(badge)
                && self.pending_mounts[badge].len() > 0
        &&& forall|badge: usize| #[trigger]
            self.client_shms.contains_key(badge) ==> self.client_shms[badge].paddr == 0
    }

    /// The process of every partition's driver leads back to that partition.
    pub open spec fn drivers_lead_back(self) -> bool {
        forall|badge: usize| #[trigger]
            self.driver_pids.contains_key(badge) ==> self.driver_to_partition.contains_key(
                self.driver_pids[badge],
            ) && self.driver_to_partition[self.driver_pids[badge]] == badge
    }

    /// No two partitions have one process for their driver.
    pub open spec fn drivers_differ(self) -> bool {
        forall|a: usize, b: usize| #[trigger]
            self.driver_pids.contains_key(a) && #[trigger] self.driver_pids.contains_key(b) && a
                != b ==> self.driver_pids[a] != self.driver_pids[b]
    }
}

impl ServerState {
    /// No number was given out twice: partitions and requests in flight have numbers below the
    /// next one.
    pub open spec fn numbered(self) -> bool {
        &&& FIRST_PARTITION_BADGE <= self.next_badge <= HARDWARE_REQUEST
        &&& forall|badge: usize| #[trigger]
            self.partitions.contains_key(badge) ==> badge < self.next_badge
        &&& forall|id: usize| #[trigger]
            self.inflight.contains_key(id) ==> HARDWARE_REQUEST <= id < HARDWARE_REQUEST
                + self.next_badge
    }
}

impl ServerState {
    /// Whether a step to `after` keeps the bookkeeping consistent, numbers nothing twice and
    /// forgets no driver.
    pub open spec fn keeps_books(self, after: ServerState) -> bool {
        &&& self.driver_pids.submap_of(after.driver_pids)
        &&& self.consistent() ==> after.consistent()
        &&& self.numbered() ==> after.numbered()
    }
}

/// A driver was looked for, and started if there was none, for the partition `badge`.
pub open spec fn driver_ensured(
    spawn: SpawnAnswers,
    badge: usize,
    fs_type: FileSystemType,
    before: ServerState,
    after: ServerState,
    failed: Option<Error>,
) -> bool {
    match configured_driver(before.config, fs_type) {
        None => after == before && failed == Some(Error::NotFound),
        Some(binary) => if before.driver_pids.contains_key(badge) {
            after == before && failed is None
        } else {
            exists|arg: String, out: Result<usize, Error>| #[trigger]
                spawn(arg, out) && arg@ == binary && match out {
                    Err(e) => after == before && failed == Some(e),
                    Ok(pid) => after == before.with_driver(badge, pid) && failed is None,
                }
        },
    }
}

impl FossilServer {
    /// The invariant of the server's parts.
    pub open spec fn wf(&self) -> bool {
        self.name_to_badge.wf() && self.buffer_cache.wf()
    }

    /// A server that knows of no device yet.
    pub fn new(endpoint: Endpoint) -> (r: FossilServer)
        ensures
            r.wf(),
            r@.consistent(),
            r@.numbered(),
            r@.ipc == (FossilIpc { endpoint, reply: CAP_NULL, recv: CAP_NULL, running: false }),
            r@.partitions == Map::<usize, PartitionView>::empty(),
            r@.names == Map::<Seq<char>, usize>::empty(),
            r@.fs_endpoints == Map::<usize, Endpoint>::empty(),
            r@.driver_pids == Map::<usize, usize>::empty(),
            r@.driver_states == Map::<usize, ServiceState>::empty(),
            r@.client_rings == Set::<usize>::empty(),
            r@.client_shms == Map::<usize, ShmParams>::empty(),
            r@.device_clients == Map::<usize, BlockDevice>::empty(),
            r@.probed_hardware == Set::<usize>::empty(),
            r@.inflight == Map::<usize, RequestContext>::empty(),
            r@.config is None,
            r@.driver_to_partition == Map::<usize, usize>::empty(),
            r@.next_badge == FIRST_PARTITION_BADGE,
            r@.next_badge == 0x1000,
            r@.pending_devices == Seq::<Seq<char>>::empty(),
            r@.pending_mounts == Map::<usize, Seq<CapPtr>>::empty(),
            r@.cache == buffer::fresh_cache(0, 0, CACHE_BLOCK_SIZE),
            r@.cache.block_size == 4096,
            r@.global_shm is None,
            r@.ledger == LedgerView::empty(),
    {
        let r = FossilServer {
            ipc: FossilIpc { endpoint, reply: CAP_NULL, recv: CAP_NULL, running: false },
            partitions: BTreeMap::new(),
            name_to_badge: NameTable::new(),
            partition_fs_endpoints: BTreeMap::new(),
            partition_driver_pids: BTreeMap::new(),
            partition_driver_states: BTreeMap::new(),
            client_rings: BTreeSet::new(),
            client_shms: BTreeMap::new(),
            device_clients: BTreeMap::new(),
            probed_hardware: BTreeSet::new(),
            inflight_requests: BTreeMap::new(),
            fs_config: None,
            driver_to_partition: BTreeMap::new(),
            next_partition_badge: FIRST_PARTITION_BADGE,
            pending_devices: VecDeque::new(),
            pending_mount_replies: BTreeMap::new(),
            buffer_cache: BufferCache::new(0, 0, CACHE_BLOCK_SIZE),
            global_shm: None,
            resource_ledger: FossilResourceLedger::default(),
        };
        assert(r@.partitions =~= Map::<usize, PartitionView>::empty());
        assert(r@.pending_mounts =~= Map::<usize, Seq<CapPtr>>::empty());
        assert(r@.pending_devices =~= Seq::<Seq<char>>::empty());
        r
    }

    /// Counts a client that is made to wait at `slot`.
    pub fn ledger_mount_waiter_queued(&mut self, slot: CapPtr)
        ensures
            final(self)@ == (ServerState {
                ledger: LedgerView {
                    mount_waiters_queued: old(self)@.ledger.mount_waiters_queued.saturating_add(1),
                    mount_reply_slots_live: old(self)@.ledger.mount_reply_slots_live.insert(slot),
                    ..old(self)@.ledger
                },
                ..old(self)@
            }),
    {
        self.resource_ledger.mount_waiters_queued =
        self.resource_ledger.mount_waiters_queued.saturating_add(1);
        self.resource_ledger.mount_reply_slots_live.insert(slot);
    }

    /// Counts a client that waited at `slot` and was answered.
    pub fn ledger_mount_waiter_woken(&mut self, slot: CapPtr)
        ensures
            final(self)@ == (ServerState {
                ledger: LedgerView {
                    mount_waiters_woken: old(self)@.ledger.mount_waiters_woken.saturating_add(1),
                    mount_reply_slots_live: old(self)@.ledger.mount_reply_slots_live.remove(slot),
                    ..old(self)@.ledger
                },
                ..old(self)@
            }),
    {
        self.resource_ledger.mount_waiters_woken =
        self.resource_ledger.mount_waiters_woken.saturating_add(1);
        self.resource_ledger.mount_reply_slots_live.remove(&slot);
    }

    /// Counts an endpoint that was made for a partition.
    pub fn ledger_partition_ep_minted(&mut self)
        ensures
            final(self)@ == (ServerState {
                ledger: LedgerView {
                    partition_endpoint_mints: old(
                        self,
                    )@.ledger.partition_endpoint_mints.saturating_add(1),
                    ..old(self)@.ledger
                },
                ..old(self)@
            }),
    {
        self.resource_ledger.partition_endpoint_mints =
        self.resource_ledger.partition_endpoint_mints.saturating_add(1);
    }

    /// The name under which a driver says that it serves a file system.
    pub fn fs_type_compatible_key(fs_type: FileSystemType) -> (r: Option<&'static str>)
        ensures
            match r {
                Some(key) => fs_key(fs_type) == Some(key@),
                None => fs_key(fs_type) is None,
            },
    {
        match fs_type {
            FileSystemType::Fat16 => Some("fat16"),
            FileSystemType::Fat32 => Some("fat32"),
            FileSystemType::ExFat => Some("exfat"),
            FileSystemType::Ext2 => Some("ext2"),
            FileSystemType::Ext3 => Some("ext3"),
            FileSystemType::Ext4 => Some("ext4"),
            FileSystemType::InitrdFS => Some("initrdfs"),
            FileSystemType::Unknown => None,
        }
    }

    /// The binary of the driver that is configured for a file system: the first that serves it.
    pub fn select_fs_driver_binary(&self, fs_type: FileSystemType) -> (r: Option<String>)
        ensures
            match r {
                Some(binary) => configured_driver(self@.config, fs_type) == Some(binary@),
                None => configured_driver(self@.config, fs_type) is None,
            },
    {
        let key = match Self::fs_type_compatible_key(fs_type) {
            Some(key) => key.to_owned(),
            None => {
                return None;
            },
        };
        let cfg = match &self.fs_config {
            Some(cfg) => cfg,
            None => {
                return None;
            },
        };
        let ghost drivers = cfg@.filesystems;
        let mut i: usize = 0;
        assert(drivers.skip(0) =~= drivers);
        while i < cfg.filesystems.len()
            invariant
                i <= drivers.len(),
                drivers == cfg@.filesystems,
                fs_key(fs_type) == Some(key@),
                self@.config == Some(cfg@),
                first_driver(drivers, key@) == first_driver(drivers.skip(i as int), key@),
            decreases drivers.len() - i,
        {
            let driver = &cfg.filesystems[i];
            assert(driver@ == drivers[i as int]);
            assert(drivers.skip(i as int).skip(1) =~= drivers.skip(i + 1));
            if contains_string(&driver.compatible, &key) {
                return Some(driver.binary.clone());
            }
            i = i + 1;
        }
        None
    }

    /// Sees to it that a driver serves the partition: starts the configured one, unless one was
    /// started before.
    pub fn ensure_partition_fs_driver<S: FnOnce(String) -> Result<usize, Error>>(
        &mut self,
        partition_badge: usize,
        fs_type: FileSystemType,
        spawn: S,
    ) -> (r: Result<(), Error>)
        requires
            starts(spawn, old(self)@, partition_badge, fs_type),
        ensures
            driver_ensured(
                spawn_answers(spawn),
                partition_badge,
                fs_type,
                old(self)@,
                final(self)@,
                failure(r),
            ),
            old(self).wf() ==> final(self).wf(),
    {
        match self.driver_to_start(partition_badge, fs_type) {
            Err(e) => Err(e),
            Ok(None) => Ok(()),
            Ok(Some(binary)) => {
                let ghost arg = binary;
                let out = spawn(binary);
                assert(spawn_answers(spawn)(arg, out));
                self.note_driver(partition_badge, out)
            },
        }
    }

    /// The binary of the driver that is to be started for a partition; `None` where it has one.
    pub(crate) fn driver_to_start(&self, partition_badge: usize, fs_type: FileSystemType) -> (r:
        Result<Option<String>, Error>)
        ensures
            match configured_driver(self@.config, fs_type) {
                None => r == Err::<Option<String>, Error>(Error::NotFound),
                Some(binary) => if self@.driver_pids.contains_key(partition_badge) {
                    r == Ok::<Option<String>, Error>(None)
                } else {
                    r matches Ok(Some(start)) && start@ == binary
                },
            },
    {
        match self.select_fs_driver_binary(fs_type) {
            None => Err(Error::NotFound),
            Some(binary) => {
                if self.partition_driver_pids.contains_key(&partition_badge) {
                    Ok(None)
                } else {
                    Ok(Some(binary))
                }
            },
        }
    }

    /// Takes note of what became of starting a partition's driver.
    pub(crate) fn note_driver(&mut self, partition_badge: usize, started: Result<usize, Error>) -> (
    r: Result<(), Error>)
        ensures
            old(self).wf() ==> final(self).wf(),
            match started {
                Err(e) => final(self)@ == old(self)@ && r == Err::<(), Error>(e),
                Ok(pid) => final(self)@ == old(self)@.with_driver(partition_badge, pid) && r is Ok,
            },
    {
        match started {
            Err(e) => Err(e),
            Ok(pid) => {
                self.driver_to_partition.insert(pid, partition_badge);
                self.partition_driver_pids.insert(partition_badge, pid);
                self.partition_driver_states.insert(partition_badge, ServiceState::Starting);
                assert(self@ =~= old(self)@.with_driver(partition_badge, pid));
                Ok(())
            },
        }
    }
}

fn contains_string(strings: &Vec<String>, s: &String) -> (r: bool)
    ensures
        r == text::texts(strings@).contains(s@),
{
    let mut i: usize = 0;
    while i < strings.len()
        invariant
            i <= strings@.len(),
            forall|j: int| 0 <= j < i ==> (#[trigger] text::texts(strings@)[j]) != s@,
        decreases strings@.len() - i,
    {
        if strings[i] == *s {
            assert(text::texts(strings@)[i as int] == s@);
            return true;
        }
        i = i + 1;
    }
    false
}

/// Starting a driver for a partition keeps the bookkeeping consistent.
pub proof fn law_drivers_keep_bookkeeping(
    spawn: SpawnAnswers,
    badge: usize,
    fs_type: FileSystemType,
    before: ServerState,
    after: ServerState,
    failed: Option<Error>,
)
    requires
        before.partitions.contains_key(badge),
        driver_ensured(spawn, badge, fs_type, before, after, failed),
    ensures
        before.keeps_books(after),
{
}

/// A partition gets one driver: once there is one, looking for it again, with the same
/// configuration, succeeds without starting anything and changes nothing, whatever starting a
/// process might give.
pub proof fn law_partition_gets_one_driver(
    first_spawn: SpawnAnswers,
    badge: usize,
    fs_type: FileSystemType,
    before: ServerState,
    between: ServerState,
    later: ServerState,
    second_spawn: SpawnAnswers,
    after: ServerState,
    failed: Option<Error>,
)
    requires
        driver_ensured(first_spawn, badge, fs_type, before, between, None),
        later.config == between.config,
        between.driver_pids.submap_of(later.driver_pids),
        driver_ensured(second_spawn, badge, fs_type, later, after, failed),
    ensures
        between.driver_pids.contains_key(badge),
        failed is None,
        after == later,
        driver_ensured(
            |binary: String, out: Result<usize, Error>| false,
            badge,
            fs_type,
            later,
            after,
            failed,
        ),
{
}

/// Where no driver could be had, nothing changes; and without a configured driver that is so even
/// if one is running.
pub proof fn law_missing_driver_changes_nothing(
    spawn: SpawnAnswers,
    badge: usize,
    fs_type: FileSystemType,
    before: ServerState,
    after: ServerState,
    failed: Option<Error>,
)
    requires
        driver_ensured(spawn, badge, fs_type, before, after, failed),
    ensures
        failed is Some ==> after == before,
        configured_driver(before.config, fs_type) is None ==> failed == Some(Error::NotFound),
        configured_driver(before.config, fs_type) is Some && failed is Some
            ==> exists|binary: String| #[trigger]
            spawn(binary, Err::<usize, Error>(failed->0)) && Some(binary@) == configured_driver(
                before.config,
                fs_type,
            ),
{
    if configured_driver(before.config, fs_type) is Some && failed is Some {
        let (binary, out) = choose|binary: String, out: Result<usize, Error>| #[trigger]
            spawn(binary, out) && Some(binary@) == configured_driver(before.config, fs_type)
                && out == Err::<usize, Error>(failed->0);
        assert(spawn(binary, Err::<usize, Error>(failed->0)));
    }
}

/// Drivers lead back to their partitions, as long as a process that is started gets a number that
/// no driver has.
pub proof fn law_drivers_lead_back(
    spawn: SpawnAnswers,
    badge: usize,
    fs_type: FileSystemType,
    before: ServerState,
    after: ServerState,
    failed: Option<Error>,
)
    requires
        before.drivers_lead_back(),
        forall|binary: String, pid: usize| #[trigger]
            spawn(binary, Ok::<usize, Error>(pid)) ==> !before.driver_to_partition.contains_key(
                pid,
            ),
        driver_ensured(spawn, badge, fs_type, before, after, failed),
    ensures
        after.drivers_lead_back(),
{
    if configured_driver(before.config, fs_type) is Some && !before.driver_pids.contains_key(
        badge,
    ) {
        let (arg, out) = choose|arg: String, out: Result<usize, Error>| #[trigger]
            spawn(arg, out) && match out {
                Err(e) => after == before && failed == Some(e),
                Ok(pid) => after == before.with_driver(badge, pid) && failed is None,
            };
        if let Ok(pid) = out {
            assert(spawn(arg, Ok::<usize, Error>(pid)));
        }
    }
}

/// In every state whose bookkeeping agrees, drivers lead back to their partitions if no two
/// partitions share a process.
pub proof fn law_different_drivers_lead_back(state: ServerState)
    requires
        state.consistent(),
        state.drivers_differ(),
    ensures
        state.drivers_lead_back(),
{
    assert forall|badge: usize| #[trigger]
        state.driver_pids.contains_key(badge) implies state.driver_to_partition.contains_key(
        state.driver_pids[badge],
    ) && state.driver_to_partition[state.driver_pids[badge]] == badge by {
        let back = state.driver_to_partition[state.driver_pids[badge]];
        assert(state.driver_pids.contains_key(back));
    }
}

/// Requests to devices are told from badges by the highest bit.
pub proof fn law_requests_have_the_highest_bit()
    ensures
        2 * HARDWARE_REQUEST == usize::MAX + 1,
{
}

/// Every file system but an unknown one has a name for drivers: its own in small letters.
pub proof fn law_file_systems_have_names()
    ensures
        fs_key(FileSystemType::Fat16) == Some(seq!['f', 'a', 't', '1', '6']),
        fs_key(FileSystemType::Fat32) == Some(seq!['f', 'a', 't', '3', '2']),
        fs_key(FileSystemType::ExFat) == Some(seq!['e', 'x', 'f', 'a', 't']),
        fs_key(FileSystemType::Ext2) == Some(seq!['e', 'x', 't', '2']),
        fs_key(FileSystemType::Ext3) == Some(seq!['e', 'x', 't', '3']),
        fs_key(FileSystemType::Ext4) == Some(seq!['e', 'x', 't', '4']),
        fs_key(FileSystemType::InitrdFS) == Some(seq!['i', 'n', 'i', 't', 'r', 'd', 'f', 's']),
        fs_key(FileSystemType::Unknown) is None,
{
    reveal_strlit("fat16");
    reveal_strlit("fat32");
    reveal_strlit("exfat");
    reveal_strlit("ext2");
    reveal_strlit("ext3");
    reveal_strlit("ext4");
    reveal_strlit("initrdfs");
    assert("fat16"@ =~= seq!['f', 'a', 't', '1', '6']);
    assert("fat32"@ =~= seq!['f', 'a', 't', '3', '2']);
    assert("exfat"@ =~= seq!['e', 'x', 'f', 'a', 't']);
    assert("ext2"@ =~= seq!['e', 'x', 't', '2']);
    assert("ext3"@ =~= seq!['e', 'x', 't', '3']);
    assert("ext4"@ =~= seq!['e', 'x', 't', '4']);
    assert("initrdfs"@ =~= seq!['i', 'n', 'i', 't', 'r', 'd', 'f', 's']);
}

/// The configured driver is the first that names the file system among those it serves: driver `i`
/// is chosen if it does and no driver before it does, and none is if no driver does.
pub proof fn law_first_fitting_driver_is_chosen(
    config: ConfigView,
    fs_type: FileSystemType,
    key: Seq<char>,
    i: int,
)
    requires
        fs_key(fs_type) == Some(key),
        0 <= i <= config.filesystems.len(),
        forall|j: int|
            0 <= j < i ==> !(#[trigger] config.filesystems[j]).compatible.contains(key),
        i < config.filesystems.len() ==> config.filesystems[i].compatible.contains(key),
    ensures
        i < config.filesystems.len() ==> configured_driver(Some(config), fs_type) == Some(
            config.filesystems[i].binary,
        ),
        i == config.filesystems.len() ==> configured_driver(Some(config), fs_type) is None,
{
    lemma_first_driver(config.filesystems, key, i);
}

proof fn lemma_first_driver(drivers: Seq<DriverView>, key: Seq<char>, i: int)
    requires
        0 <= i <= drivers.len(),
        forall|j: int| 0 <= j < i ==> !(#[trigger] drivers[j]).compatible.contains(key),
        i < drivers.len() ==> drivers[i].compatible.contains(key),
    ensures
        first_driver(drivers, key) == (if i < drivers.len() {
            Some(drivers[i].binary)
        } else {
            None
        }),
    decreases i,
{
    if i > 0 {
        assert(!drivers[0].compatible.contains(key));
        let rest = drivers.skip(1);
        assert forall|j: int| 0 <= j < i - 1 implies !(
        #[trigger] rest[j]).compatible.contains(key) by {
            assert(!drivers[j + 1].compatible.contains(key));
        }
        lemma_first_driver(rest, key, i - 1);
    }
}

/// Without a configuration, or for an unknown file system, there is no driver.
pub proof fn law_no_driver_without_a_configuration(
    config: Option<ConfigView>,
    fs_type: FileSystemType,
)
    requires
        config is None || fs_type == FileSystemType::Unknown,
    ensures
        configured_driver(config, fs_type) is None,
{
}

/// A driver that is started is known by its partition and by its process, and is starting; nothing
/// else changes.
pub proof fn law_started_driver_is_known(
    spawn: SpawnAnswers,
    badge: usize,
    fs_type: FileSystemType,
    before: ServerState,
    after: ServerState,
    failed: Option<Error>,
) -> (w: (String, usize))
    requires
        !before.driver_pids.contains_key(badge),
        driver_ensured(spawn, badge, fs_type, before, after, failed),
    ensures
        failed is None ==> {
            &&& spawn(w.0, Ok::<usize, Error>(w.1))
            &&& configured_driver(before.config, fs_type) == Some(w.0@)
            &&& after.driver_pids.contains_key(badge)
            &&& after.driver_pids[badge] == w.1
            &&& after.driver_states.contains_key(badge)
            &&& after.driver_states[badge] == ServiceState::Starting
            &&& after.driver_to_partition.contains_key(w.1)
            &&& after.driver_to_partition[w.1] == badge
            &&& forall|other: usize|
                other != badge ==> (#[trigger] after.driver_pids.contains_key(other)
                    == before.driver_pids.contains_key(other)) && after.driver_pids[other]
                    == before.driver_pids[other]
            &&& forall|other: usize|
                other != badge ==> (#[trigger] after.driver_states.contains_key(other)
                    == before.driver_states.contains_key(other)) && after.driver_states[other]
                    == before.driver_states[other]
            &&& forall|other: usize|
                other != w.1 ==> (#[trigger] after.driver_to_partition.contains_key(other)
                    == before.driver_to_partition.contains_key(other))
                    && after.driver_to_partition[other] == before.driver_to_partition[other]
        },
        after == (ServerState {
            driver_to_partition: after.driver_to_partition,
            driver_pids: after.driver_pids,
            driver_states: after.driver_states,
            ..before
        }),
{
    if failed is None {
        let (arg, out) = choose|arg: String, out: Result<usize, Error>| #[trigger]
            spawn(arg, out) && Some(arg@) == configured_driver(before.config, fs_type)
                && match out {
                Err(e) => after == before && failed == Some(e),
                Ok(pid) => after == before.with_driver(badge, pid) && failed is None,
            };
        (arg, out->Ok_0)
    } else {
        arbitrary()
    }
}

} // verus!
