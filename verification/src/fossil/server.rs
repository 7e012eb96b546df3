//! Starting the server, and telling its requests apart.
use super::buffer;
use super::buffer::BufferCache;
use super::pending;
use super::{FossilIpc, FossilServer, ServerState, CACHE_BLOCK_SIZE};
use crate::cap::{CapPtr, Endpoint, SharedMemory};
use crate::config;
use crate::config::{default_buffer_size, FSConfig};
use crate::error::Error;
use vstd::prelude::*;
use vstd::string::StringExecFns;

verus! {

/// The numbers by which the protocols know their requests.
#[derive(Debug, Clone, Copy)]
pub struct Protocol {
    pub volume: usize,
    pub get_device: usize,
    pub probe_device: usize,
    pub report_state: usize,
    pub mount_partition: usize,
    pub get_info: usize,
    pub setup_ring: usize,
    pub acquire_shm: usize,
    pub register_shm: usize,
    pub kernel: usize,
    pub notify: usize,
    /// The bit of a notification that a device has answered requests.
    pub notify_cq: usize,
    /// The bit of a notification that a client has made requests.
    pub notify_sq: usize,
    /// The bit of a notification that the devices have changed.
    pub notify_hook: usize,
}

/// A message to the server.
#[derive(Debug, Clone, Copy)]
pub struct Message {
    pub proto: usize,
    pub label: usize,
    pub badge: usize,
    pub has_cap: bool,
    pub mr0: usize,
    pub mr1: usize,
}

/// What a message asks for.
#[derive(Debug, Clone, Copy, PartialEq, Eq, Structural)]
pub enum Request {
    /// An endpoint to the partition that the badge means.
    GetDevice { badge: usize },
    /// A probe of the device that the message names.
    ProbeDevice,
    /// A note of a driver's state, which comes with its endpoint if there is one.
    ReportState { state: usize, endpoint: Option<CapPtr> },
    /// The file system of the partition that the message names.
    MountPartition,
    /// The size of the caller's partition.
    GetInfo,
    /// A ring with so many entries.
    SetupRing { sq_entries: u32, cq_entries: u32 },
    /// The global buffer.
    AcquireShm,
    /// A note of where the caller has mapped the global buffer.
    RegisterShm { vaddr: usize, size: usize },
    /// Attention to changed devices, then to answers, then to requests.
    Notify { hook: bool, cq: bool, sq: bool },
}

/// How a message is answered.
#[derive(Debug, Clone, Copy, PartialEq, Eq, Structural)]
pub enum ReplyAction {
    /// With what the request has put into the message.
    Reply,
    /// Not at all, or later: the reply capability is given up.
    Discard,
    /// With an error.
    ReplyError(Error),
}

/// The size of a partition.
#[derive(Debug, Clone, Copy, PartialEq, Eq, Structural)]
pub struct VolumeInfo {
    pub block_size: usize,
    pub num_blocks: usize,
}

/// What a message asks of a server that receives capabilities at `recv`.
pub open spec fn request_of(proto: Protocol, msg: Message, recv: CapPtr) -> Option<Request> {
    if msg.proto == proto.volume && msg.label == proto.get_device {
        Some(
            Request::GetDevice {
                badge: if msg.mr0 == 0 {
                    msg.badge
                } else {
                    msg.mr0
                },
            },
        )
    } else if msg.proto == proto.volume && msg.label == proto.probe_device {
        Some(Request::ProbeDevice)
    } else if msg.proto == proto.volume && msg.label == proto.report_state {
        Some(
            Request::ReportState {
                state: msg.mr0,
                endpoint: if msg.has_cap {
                    Some(recv)
                } else {
                    None
                },
            },
        )
    } else if msg.proto == proto.volume && msg.label == proto.mount_partition {
        Some(Request::MountPartition)
    } else if msg.proto == proto.volume && msg.label == proto.get_info {
        Some(Request::GetInfo)
    } else if msg.proto == proto.volume && msg.label == proto.setup_ring {
        Some(Request::SetupRing { sq_entries: msg.mr0 as u32, cq_entries: msg.mr1 as u32 })
    } else if msg.proto == proto.volume && msg.label == proto.acquire_shm {
        Some(Request::AcquireShm)
    } else if msg.proto == proto.volume && msg.label == proto.register_shm {
        Some(Request::RegisterShm { vaddr: msg.mr0, size: msg.mr1 })
    } else if msg.proto == proto.kernel && msg.label == proto.notify {
        Some(
            Request::Notify {
                hook: msg.badge & proto.notify_hook != 0,
                cq: msg.badge & proto.notify_cq != 0,
                sq: msg.badge & proto.notify_sq != 0,
            },
        )
    } else {
        None
    }
}

/// The size of the partition with a badge, if there is one.
pub open spec fn volume_info(state: ServerState, badge: usize) -> Result<VolumeInfo, Error> {
    if state.partitions.contains_key(badge) {
        let meta = state.partitions[badge].meta;
        Ok(
            VolumeInfo {
                block_size: meta.block_size as usize,
                num_blocks: meta.num_blocks as usize,
            },
        )
    } else {
        Err(Error::NotFound)
    }
}

/// The size that the global buffer is to have: the configured one, or the default.
pub open spec fn wanted_bytes(state: ServerState) -> usize {
    match state.config {
        Some(c) => c.buffer_size,
        None => config::DEFAULT_BUFFER_SIZE,
    }
}

/// The server with the configuration, if it could be loaded.
pub open spec fn with_config(state: ServerState, loaded: Result<FSConfig, Error>) -> ServerState {
    match loaded {
        Ok(c) => ServerState { config: Some(c@), ..state },
        Err(_) => state,
    }
}

/// The server with the global buffer, and a new cache in it.
pub open spec fn with_buffer(state: ServerState, shm: SharedMemory) -> ServerState {
    ServerState {
        cache: buffer::fresh_cache(shm.vaddr, shm.size, CACHE_BLOCK_SIZE),
        global_shm: Some(shm),
        ..state
    }
}

/// The server was initialised: the configuration was loaded, if there is one, the global buffer
/// was allocated in the size that it wants, and the devices were asked for.
pub open spec fn initialised<
    L: FnOnce() -> Result<FSConfig, Error>,
    A: FnOnce(usize) -> Result<SharedMemory, Error>,
    Q: FnOnce() -> Result<Vec<String>, Error>,
>(
    load: L,
    alloc: A,
    query: Q,
    before: ServerState,
    after: ServerState,
    failed: Option<Error>,
) -> bool {
    exists|loaded: Result<FSConfig, Error>, out: Result<SharedMemory, Error>|
        {
            let configured = with_config(before, loaded);
            &&& #[trigger] call_ensures(load, (), loaded)
            &&& #[trigger] call_ensures(alloc, (wanted_bytes(with_config(before, loaded)),), out)
            &&& match out {
                Err(e) => after == configured && failed == Some(e),
                Ok(shm) => pending::synced(query, with_buffer(configured, shm), after, failed),
            }
        }
}

/// Whether a buffer may be had.
pub open spec fn allocates<A: FnOnce(usize) -> Result<SharedMemory, Error>>(alloc: A) -> bool {
    exists|size: usize, shm: SharedMemory| #[trigger]
        call_ensures(alloc, (size,), Ok::<SharedMemory, Error>(shm))
}

/// What is needed of the closures that load the configuration, allocate the buffer and ask for
/// devices: the buffer may be asked for in the size that the configuration wants, and the devices
/// once there is a buffer.
pub open spec fn prepares<
    L: FnOnce() -> Result<FSConfig, Error>,
    A: FnOnce(usize) -> Result<SharedMemory, Error>,
    Q: FnOnce() -> Result<Vec<String>, Error>,
>(load: L, alloc: A, query: Q, state: ServerState) -> bool {
    &&& call_requires(load, ())
    &&& forall|loaded: Result<FSConfig, Error>| #[trigger]
        call_ensures(load, (), loaded) ==> call_requires(
            alloc,
            (wanted_bytes(with_config(state, loaded)),),
        )
    &&& allocates(alloc) ==> call_requires(query, ())
}

/// The steps that complete the start-up of a server that has its buffer and has asked for devices.
#[derive(Debug, Clone, Copy, PartialEq, Eq, Structural)]
pub enum StartupStep {
    /// The devices that wait for it are probed.
    Probe,
    /// The server is to be told of devices to come.
    Hook,
    /// The server's endpoint is registered for clients to find.
    Register,
    /// The server is reported to be running.
    Report,
}

/// What is to be done next in the start-up.
#[derive(Debug, Clone, Copy, PartialEq, Eq)]
pub enum StartupAction {
    /// Take a step.
    Take(StartupStep),
    /// End the start-up.
    End(Result<(), Error>),
}

/// What follows in the start-up after a step had an outcome; `None` stands for the preparation. A
/// failure ends the start-up, other than of the registration.
pub open spec fn startup_action(
    done: Option<StartupStep>,
    outcome: Result<(), Error>,
) -> StartupAction {
    match (done, outcome) {
        (None, Ok(_)) => StartupAction::Take(StartupStep::Probe),
        (Some(StartupStep::Probe), Ok(_)) => StartupAction::Take(StartupStep::Hook),
        (Some(StartupStep::Hook), Ok(_)) => StartupAction::Take(StartupStep::Register),
        (Some(StartupStep::Register), _) => StartupAction::Take(StartupStep::Report),
        (_, outcome) => StartupAction::End(outcome),
    }
}

/// Decides what follows in the start-up after a step had an outcome; `None` stands for the
/// preparation.
pub fn next_startup_action(done: Option<StartupStep>, outcome: Result<(), Error>) -> (r:
    StartupAction)
    ensures
        r == startup_action(done, outcome),
{
    match (done, outcome) {
        (None, Ok(_)) => StartupAction::Take(StartupStep::Probe),
        (Some(StartupStep::Probe), Ok(_)) => StartupAction::Take(StartupStep::Hook),
        (Some(StartupStep::Hook), Ok(_)) => StartupAction::Take(StartupStep::Register),
        (Some(StartupStep::Register), _) => StartupAction::Take(StartupStep::Report),
        (_, outcome) => StartupAction::End(outcome),
    }
}

/// What follows after `taken`, the steps so far with their outcomes, where the preparation ended
/// as `prepared`.
pub open spec fn next_after(
    prepared: Result<(), Error>,
    taken: Seq<(StartupStep, Result<(), Error>)>,
) -> StartupAction {
    if taken.len() == 0 {
        startup_action(None, prepared)
    } else {
        startup_action(Some(taken.last().0), taken.last().1)
    }
}

/// Whether `taken` are the steps of a start-up so far: each was what followed after those before.
pub open spec fn started_by(
    prepared: Result<(), Error>,
    taken: Seq<(StartupStep, Result<(), Error>)>,
) -> bool {
    forall|i: int|
        0 <= i < taken.len() ==> next_after(prepared, taken.take(i)) == StartupAction::Take(
            (#[trigger] taken[i]).0,
        )
}

/// A server is reported to be running at most once, as the last step of its start-up, and only
/// after the preparation, the probes and the hook went well.
pub proof fn law_running_is_reported_last(
    prepared: Result<(), Error>,
    taken: Seq<(StartupStep, Result<(), Error>)>,
    i: int,
)
    requires
        started_by(prepared, taken),
        0 <= i < taken.len(),
        taken[i].0 == StartupStep::Report,
    ensures
        taken.len() == 4,
        i == 3,
        prepared is Ok,
        taken[0].0 == StartupStep::Probe && taken[0].1 is Ok,
        taken[1].0 == StartupStep::Hook && taken[1].1 is Ok,
        taken[2].0 == StartupStep::Register,
        next_after(prepared, taken) == StartupAction::End(taken[3].1),
{
    lemma_startup_order(prepared, taken);
}

/// A start-up in which the preparation, the probes or the hook failed ends with that failure, and
/// the server is not reported to be running.
pub proof fn law_failed_start_is_not_reported(
    prepared: Result<(), Error>,
    taken: Seq<(StartupStep, Result<(), Error>)>,
    failed: Error,
)
    requires
        started_by(prepared, taken),
        (prepared == Err::<(), Error>(failed) && taken.len() == 0) || (taken.len() > 0
            && taken.last().1 == Err::<(), Error>(failed) && (taken.last().0 == StartupStep::Probe
            || taken.last().0 == StartupStep::Hook)),
    ensures
        next_after(prepared, taken) == StartupAction::End(Err::<(), Error>(failed)),
        forall|i: int|
            0 <= i < taken.len() ==> (#[trigger] taken[i]).0 != StartupStep::Report,
{
    lemma_startup_order(prepared, taken);
}

/// A start-up that ends well has reported the server to be running.
pub proof fn law_started_server_is_reported(
    prepared: Result<(), Error>,
    taken: Seq<(StartupStep, Result<(), Error>)>,
)
    requires
        started_by(prepared, taken),
        next_after(prepared, taken) == StartupAction::End(Ok::<(), Error>(())),
    ensures
        taken.len() == 4,
        taken[3] == (StartupStep::Report, Ok::<(), Error>(())),
{
    lemma_startup_order(prepared, taken);
}

/// The steps come in one order, and only the registration may fail on the way.
proof fn lemma_startup_order(
    prepared: Result<(), Error>,
    taken: Seq<(StartupStep, Result<(), Error>)>,
)
    requires
        started_by(prepared, taken),
    ensures
        taken.len() <= 4,
        taken.len() > 0 ==> prepared is Ok && taken[0].0 == StartupStep::Probe,
        taken.len() > 1 ==> taken[0].1 is Ok && taken[1].0 == StartupStep::Hook,
        taken.len() > 2 ==> taken[1].1 is Ok && taken[2].0 == StartupStep::Register,
        taken.len() > 3 ==> taken[3].0 == StartupStep::Report,
{
    if taken.len() > 0 {
        assert(next_after(prepared, taken.take(0)) == StartupAction::Take(taken[0].0));
    }
    if taken.len() > 1 {
        assert(taken.take(1).last() == taken[0]);
        assert(next_after(prepared, taken.take(1)) == StartupAction::Take(taken[1].0));
    }
    if taken.len() > 2 {
        assert(taken.take(2).last() == taken[1]);
        assert(next_after(prepared, taken.take(2)) == StartupAction::Take(taken[2].0));
    }
    if taken.len() > 3 {
        assert(taken.take(3).last() == taken[2]);
        assert(next_after(prepared, taken.take(3)) == StartupAction::Take(taken[3].0));
    }
    if taken.len() > 4 {
        assert(taken.take(4).last() == taken[3]);
        assert(next_after(prepared, taken.take(4)) == StartupAction::Take(taken[4].0));
    }
}

/// How a message is answered, given what became of it.
pub open spec fn action_for(result: Result<(), Error>) -> ReplyAction {
    match result {
        Ok(_) => ReplyAction::Reply,
        Err(Error::Success) => ReplyAction::Discard,
        Err(e) => ReplyAction::ReplyError(e),
    }
}

/// Decides how a message is answered. `Error::Success` tells that the answer comes later, or that
/// there is nobody to answer.
pub fn reply_action(result: Result<(), Error>) -> (r: ReplyAction)
    ensures
        r == action_for(result),
{
    match result {
        Ok(_) => ReplyAction::Reply,
        Err(Error::Success) => ReplyAction::Discard,
        Err(e) => ReplyAction::ReplyError(e),
    }
}

impl FossilServer {
    /// Takes over the configuration, if it could be loaded.
    pub fn init_config(&mut self, loaded: Result<FSConfig, Error>)
        ensures
            old(self).wf() ==> final(self).wf(),
            old(self)@.keeps_books(final(self)@),
            final(self)@ == with_config(old(self)@, loaded),
    {
        match loaded {
            Ok(c) => {
                self.fs_config = Some(c);
            },
            Err(_) => {},
        }
    }

    /// The size that the global buffer is to have: the configured one, or the default.
    pub fn buffer_bytes(&self) -> (r: usize)
        ensures
            r == wanted_bytes(self@),
    {
        match &self.fs_config {
            Some(c) => c.buffer_size,
            None => default_buffer_size(),
        }
    }

    /// Takes over the global buffer, with a new cache in it. The configured policies are set where
    /// they are known; the cache has the same ones to begin with.
    pub fn init_buffer(&mut self, shm: SharedMemory)
        ensures
            old(self).wf() ==> final(self).wf(),
            old(self)@.keeps_books(final(self)@),
            final(self)@ == with_buffer(old(self)@, shm),
    {
        self.buffer_cache = BufferCache::new(shm.vaddr, shm.size, CACHE_BLOCK_SIZE);
        if let Some(c) = &self.fs_config {
            if c.replacement_policy == String::from_str("lru") {
                self.buffer_cache.set_lru_policy();
            }
            if c.write_policy == String::from_str("write-through") {
                self.buffer_cache.set_write_through();
            }
        }
        self.global_shm = Some(shm);
        proof {
            let fresh = buffer::fresh_cache(shm.vaddr, shm.size, CACHE_BLOCK_SIZE);
            assert(self@.cache.may_evict =~= fresh.may_evict);
            assert(self@.cache.may_write_through =~= fresh.may_write_through);
            assert(self@.cache.may_flush_on_evict =~= fresh.may_flush_on_evict);
            assert(self@.cache =~= fresh);
        }
    }

    /// Initialises the server: takes over the configuration from `load`, if it can be loaded, then
    /// the global buffer from `alloc`, and queues the devices that `query` names.
    pub fn init<
        L: FnOnce() -> Result<FSConfig, Error>,
        A: FnOnce(usize) -> Result<SharedMemory, Error>,
        Q: FnOnce() -> Result<Vec<String>, Error>,
    >(&mut self, load: L, alloc: A, query: Q) -> (r: Result<(), Error>)
        requires
            prepares(load, alloc, query, old(self)@),
        ensures
            old(self).wf() ==> final(self).wf(),
            old(self)@.keeps_books(final(self)@),
            initialised(
                load,
                alloc,
                query,
                old(self)@,
                final(self)@,
                super::failure(r),
            ),
    {
        let loaded = load();
        assert(call_ensures(load, (), loaded));
        self.init_config(loaded);
        let size: usize = self.buffer_bytes();
        let out = alloc(size);
        assert(call_ensures(alloc, (size,), out));
        match out {
            Ok(shm) => {
                self.init_buffer(shm);
                self.sync_devices(query)
            },
            Err(e) => Err(e),
        }
    }

    /// Sets where the server is called and where it answers.
    pub fn listen(&mut self, ep: Endpoint, reply: CapPtr, recv: CapPtr)
        ensures
            old(self).wf() ==> final(self).wf(),
            old(self)@.keeps_books(final(self)@),
            final(self)@ == (ServerState {
                ipc: FossilIpc { endpoint: ep, reply, recv, running: old(self)@.ipc.running },
                ..old(self)@
            }),
    {
        self.ipc.endpoint = ep;
        self.ipc.reply = reply;
        self.ipc.recv = recv;
    }

    /// Starts to answer requests.
    pub fn start(&mut self)
        ensures
            old(self).wf() ==> final(self).wf(),
            old(self)@.keeps_books(final(self)@),
            final(self)@ == (ServerState {
                ipc: FossilIpc { running: true, ..old(self)@.ipc },
                ..old(self)@
            }),
    {
        self.ipc.running = true;
    }

    /// Stops to answer requests.
    pub fn stop(&mut self)
        ensures
            old(self).wf() ==> final(self).wf(),
            old(self)@.keeps_books(final(self)@),
            final(self)@ == (ServerState {
                ipc: FossilIpc { running: false, ..old(self)@.ipc },
                ..old(self)@
            }),
    {
        self.ipc.running = false;
    }

    /// Tells what a message asks for; a message that asks for nothing known is an invalid method.
    pub fn dispatch(&self, proto: &Protocol, msg: &Message) -> (r: Result<Request, Error>)
        ensures
            r == (match request_of(*proto, *msg, self@.ipc.recv) {
                Some(request) => Ok::<Request, Error>(request),
                None => Err::<Request, Error>(Error::InvalidMethod),
            }),
    {
        if msg.proto == proto.volume {
            if msg.label == proto.get_device {
                let badge: usize = if msg.mr0 == 0 {
                    msg.badge
                } else {
                    msg.mr0
                };
                return Ok(Request::GetDevice { badge });
            }
            if msg.label == proto.probe_device {
                return Ok(Request::ProbeDevice);
            }
            if msg.label == proto.report_state {
                let endpoint: Option<CapPtr> = if msg.has_cap {
                    Some(self.ipc.recv)
                } else {
                    None
                };
                return Ok(Request::ReportState { state: msg.mr0, endpoint });
            }
            if msg.label == proto.mount_partition {
                return Ok(Request::MountPartition);
            }
            if msg.label == proto.get_info {
                return Ok(Request::GetInfo);
            }
            if msg.label == proto.setup_ring {
                return Ok(
                    Request::SetupRing {
                        sq_entries: msg.mr0 as u32,
                        cq_entries: msg.mr1 as u32,
                    },
                );
            }
            if msg.label == proto.acquire_shm {
                return Ok(Request::AcquireShm);
            }
            if msg.label == proto.register_shm {
                return Ok(Request::RegisterShm { vaddr: msg.mr0, size: msg.mr1 });
            }
        }
        if msg.proto == proto.kernel && msg.label == proto.notify {
            return Ok(
                Request::Notify {
                    hook: msg.badge & proto.notify_hook != 0,
                    cq: msg.badge & proto.notify_cq != 0,
                    sq: msg.badge & proto.notify_sq != 0,
                },
            );
        }
        Err(Error::InvalidMethod)
    }

    /// The size of the caller's partition.
    pub fn get_info(&self, badge: usize) -> (r: Result<VolumeInfo, Error>)
        ensures
            r == volume_info(self@, badge),
    {
        match self.partitions.get(&badge) {
            Some(partition) => Ok(
                VolumeInfo {
                    block_size: partition.meta.block_size as usize,
                    num_blocks: partition.meta.num_blocks as usize,
                },
            ),
            None => Err(Error::NotFound),
        }
    }
}

/// Messages are told apart by protocol and label, where no two labels are alike, and carry what
/// their registers hold; of the sizes of a ring that is the low 32 bits.
pub proof fn law_messages_are_told_apart(proto: Protocol, msg: Message, recv: CapPtr)
    requires
        proto.volume != proto.kernel,
        seq![
            proto.get_device,
            proto.probe_device,
            proto.report_state,
            proto.mount_partition,
            proto.get_info,
            proto.setup_ring,
            proto.acquire_shm,
            proto.register_shm,
        ].no_duplicates(),
    ensures
        ({
            let volume = msg.proto == proto.volume;
            let r = request_of(proto, msg, recv);
            &&& volume && msg.label == proto.get_device ==> r is Some && (msg.mr0 == 0 ==> r->0
                == (Request::GetDevice { badge: msg.badge })) && (msg.mr0 != 0 ==> r->0 == (
            Request::GetDevice { badge: msg.mr0 }))
            &&& volume && msg.label == proto.probe_device <==> r == Some(Request::ProbeDevice)
            &&& volume && msg.label == proto.report_state ==> r is Some && (msg.has_cap ==> r->0
                == (Request::ReportState { state: msg.mr0, endpoint: Some(recv) })) && (
            !msg.has_cap ==> r->0 == (Request::ReportState { state: msg.mr0, endpoint: None }))
            &&& volume && msg.label == proto.mount_partition <==> r == Some(
                Request::MountPartition,
            )
            &&& volume && msg.label == proto.get_info <==> r == Some(Request::GetInfo)
            &&& volume && msg.label == proto.acquire_shm <==> r == Some(Request::AcquireShm)
            &&& volume && msg.label == proto.register_shm ==> r == Some(
                Request::RegisterShm { vaddr: msg.mr0, size: msg.mr1 },
            )
            &&& volume && msg.label == proto.setup_ring ==> {
                &&& r is Some
                &&& r->0 is SetupRing
                &&& r->0->sq_entries == msg.mr0 as int % 0x1_0000_0000
                &&& r->0->cq_entries == msg.mr1 as int % 0x1_0000_0000
            }
            &&& msg.proto == proto.kernel && msg.label == proto.notify <==> r is Some && r->0
                is Notify
            &&& msg.proto != proto.volume && !(msg.proto == proto.kernel && msg.label
                == proto.notify) ==> r is None
            &&& r is Some && volume ==> msg.label == proto.get_device || msg.label
                == proto.probe_device || msg.label == proto.report_state || msg.label
                == proto.mount_partition || msg.label == proto.get_info || msg.label
                == proto.setup_ring || msg.label == proto.acquire_shm || msg.label
                == proto.register_shm
        }),
{
    let labels = seq![
        proto.get_device,
        proto.probe_device,
        proto.report_state,
        proto.mount_partition,
        proto.get_info,
        proto.setup_ring,
        proto.acquire_shm,
        proto.register_shm,
    ];
    lemma_low_half(msg.mr0);
    lemma_low_half(msg.mr1);
    assert(labels[0] == proto.get_device && labels[1] == proto.probe_device);
    assert(labels[2] == proto.report_state && labels[3] == proto.mount_partition);
    assert(labels[4] == proto.get_info && labels[5] == proto.setup_ring);
    assert(labels[6] == proto.acquire_shm && labels[7] == proto.register_shm);
}

proof fn lemma_low_half(x: usize)
    ensures
        x as u32 == x as int % 0x1_0000_0000,
{
    assert(x as u32 == (x as u64) % 0x1_0000_0000u64) by (bit_vector);
}

/// A notification asks for what its bits say: bit `h` for changed devices, bit `c` for answers and
/// bit `s` for requests, whatever the other bits are.
pub proof fn law_notifications_say_it_by_bits(
    proto: Protocol,
    msg: Message,
    recv: CapPtr,
    h: usize,
    c: usize,
    s: usize,
)
    requires
        h < 32,
        c < 32,
        s < 32,
        proto.notify_hook == 1usize << h,
        proto.notify_cq == 1usize << c,
        proto.notify_sq == 1usize << s,
        proto.volume != proto.kernel,
        msg.proto == proto.kernel,
        msg.label == proto.notify,
    ensures
        request_of(proto, msg, recv) == Some(
            Request::Notify {
                hook: (msg.badge >> h) % 2 == 1,
                cq: (msg.badge >> c) % 2 == 1,
                sq: (msg.badge >> s) % 2 == 1,
            },
        ),
{
    lemma_bit(msg.badge, h);
    lemma_bit(msg.badge, c);
    lemma_bit(msg.badge, s);
}

proof fn lemma_bit(x: usize, k: usize)
    requires
        k < 32,
    ensures
        x & (1usize << k) != 0 <==> (x >> k) % 2 == 1,
{
    assert(x & (1usize << k) != 0 <==> (x >> k) % 2 == 1) by (bit_vector)
        requires
            k < 32,
    ;
}

/// A client is told the block size and the number of blocks of its own partition.
pub proof fn law_info_is_that_of_the_partition(state: ServerState, badge: usize)
    ensures
        volume_info(state, badge) is Ok <==> state.partitions.contains_key(badge),
        volume_info(state, badge) is Err ==> volume_info(state, badge)->Err_0 == Error::NotFound,
        volume_info(state, badge) is Ok ==> {
            let meta = state.partitions[badge].meta;
            let info = volume_info(state, badge)->Ok_0;
            &&& info.block_size == meta.block_size
            &&& meta.num_blocks <= usize::MAX ==> info.num_blocks == meta.num_blocks
        },
{
}

/// The global buffer is as large as the configuration wants it, and two megabytes without one.
pub proof fn law_buffer_is_as_configured(state: ServerState)
    ensures
        state.config is Some ==> wanted_bytes(state) == state.config->0.buffer_size,
        state.config is None ==> wanted_bytes(state) == 2 * 1024 * 1024,
{
}

/// The configuration is taken over if it could be loaded, and nothing changes otherwise.
pub proof fn law_configuration_is_taken_over(state: ServerState, loaded: Result<FSConfig, Error>)
    ensures
        loaded is Ok ==> with_config(state, loaded).config == Some(loaded->Ok_0@),
        loaded is Err ==> with_config(state, loaded) == state,
        with_config(state, loaded) == (ServerState {
            config: with_config(state, loaded).config,
            ..state
        }),
{
}

/// The cache fills the global buffer with blocks of 4096 bytes, of which none is in use.
pub proof fn law_cache_lies_in_the_buffer(state: ServerState, shm: SharedMemory)
    ensures
        ({
            let after = with_buffer(state, shm);
            &&& after.global_shm == Some(shm)
            &&& after.cache.base_vaddr == shm.vaddr
            &&& after.cache.total_size == shm.size
            &&& after.cache.block_size == 4096
            &&& 4096 * after.cache.blocks.len() <= shm.size < 4096 * after.cache.blocks.len() + 4096
            &&& after.cache.free.len() == after.cache.blocks.len()
            &&& after.cache.lookup.dom().len() == 0
            &&& after == (ServerState {
                cache: after.cache,
                global_shm: after.global_shm,
                ..state
            })
        }),
{
    buffer::law_new_cache_is_empty(shm.vaddr, shm.size, 4096);
}

/// A start-up whose steps all go well takes them in turn; a registration that fails does not keep
/// the server from being reported, and any other step that fails ends it.
pub proof fn law_startup_goes_on(done: StartupStep, e: Error)
    ensures
        startup_action(None, Ok::<(), Error>(())) == StartupAction::Take(StartupStep::Probe),
        startup_action(None, Err::<(), Error>(e)) == StartupAction::End(Err::<(), Error>(e)),
        startup_action(Some(StartupStep::Probe), Ok::<(), Error>(())) == StartupAction::Take(
            StartupStep::Hook,
        ),
        startup_action(Some(StartupStep::Hook), Ok::<(), Error>(())) == StartupAction::Take(
            StartupStep::Register,
        ),
        startup_action(Some(StartupStep::Register), Ok::<(), Error>(())) == StartupAction::Take(
            StartupStep::Report,
        ),
        startup_action(Some(StartupStep::Register), Err::<(), Error>(e)) == StartupAction::Take(
            StartupStep::Report,
        ),
        startup_action(Some(StartupStep::Report), Ok::<(), Error>(())) == StartupAction::End(
            Ok::<(), Error>(()),
        ),
        done != StartupStep::Register ==> startup_action(Some(done), Err::<(), Error>(e))
            == StartupAction::End(Err::<(), Error>(e)),
{
}

/// What went well is answered, what is answered later is not answered now, and any other failure is
/// answered with its error.
pub proof fn law_failures_are_answered(e: Error)
    ensures
        action_for(Ok::<(), Error>(())) == ReplyAction::Reply,
        action_for(Err::<(), Error>(Error::Success)) == ReplyAction::Discard,
        e != Error::Success ==> action_for(Err::<(), Error>(e)) == ReplyAction::ReplyError(e),
{
}

/// Preparing a server takes over the configuration, if it can be loaded, then asks for a buffer as
/// large as that wants it (two megabytes without one), and then for the devices. `w` are what
/// became of loading the configuration and of allocating the buffer.
pub proof fn law_server_is_prepared<
    L: FnOnce() -> Result<FSConfig, Error>,
    A: FnOnce(usize) -> Result<SharedMemory, Error>,
    Q: FnOnce() -> Result<Vec<String>, Error>,
>(
    load: L,
    alloc: A,
    query: Q,
    before: ServerState,
    after: ServerState,
    failed: Option<Error>,
) -> (w: (Result<FSConfig, Error>, Result<SharedMemory, Error>))
    requires
        before.config is None,
        initialised(load, alloc, query, before, after, failed),
    ensures
        call_ensures(load, (), w.0),
        w.0 is Ok ==> call_ensures(alloc, (w.0->Ok_0.buffer_size,), w.1),
        w.0 is Err ==> call_ensures(alloc, (0x20_0000usize,), w.1),
        w.0 is Ok ==> after.config == Some(w.0->Ok_0@),
        w.0 is Err ==> after.config is None,
        w.1 is Err ==> failed == Some(w.1->Err_0) && after.cache == before.cache
            && after.global_shm == before.global_shm,
        w.1 is Ok ==> {
            &&& after.global_shm == Some(w.1->Ok_0)
            &&& after.cache.base_vaddr == w.1->Ok_0.vaddr
            &&& after.cache.total_size == w.1->Ok_0.size
            &&& after.cache.block_size == 4096
            &&& after.cache.lookup.dom().len() == 0
        },
        after == (ServerState {
            config: after.config,
            cache: after.cache,
            global_shm: after.global_shm,
            pending_devices: after.pending_devices,
            ..before
        }),
{
    let (loaded, out) = choose|loaded: Result<FSConfig, Error>, out: Result<SharedMemory, Error>|
        {
            let configured = with_config(before, loaded);
            &&& #[trigger] call_ensures(load, (), loaded)
            &&& #[trigger] call_ensures(alloc, (wanted_bytes(with_config(before, loaded)),), out)
            &&& match out {
                Err(e) => after == configured && failed == Some(e),
                Ok(shm) => pending::synced(query, with_buffer(configured, shm), after, failed),
            }
        };
    if out is Ok {
        let ready = with_buffer(with_config(before, loaded), out->Ok_0);
        law_cache_lies_in_the_buffer(with_config(before, loaded), out->Ok_0);
        pending::law_named_devices_wait(query, ready, after, failed);
    }
    (loaded, out)
}

} // verus!
