//! A server that publishes the partitions of raw block devices as block devices.
use crate::cap::{CapPtr, Endpoint, CAP_NULL};
use crate::error::Error;
use crate::fossil;
use crate::fossil::buffer::IoUringSqe;
use crate::layout::PROBE_VADDR;
use crate::manager;
use crate::manager::{
    DescView, FossilManager, LogicDeviceDesc, LogicDeviceType, PartitionMetadata, PartitionProxy,
};
use std::collections::{BTreeMap, BTreeSet};
use vstd::prelude::*;

verus! {

/// The badge that the first partition gets.
pub const FIRST_BADGE: usize = 0x1000;

/// How many pages after the probe address the first ring is mapped.
pub const RING_PAGES: usize = 64;

/// The state of the server.
pub struct FossilServer {
    pub endpoint: Endpoint,
    pub reply: CapPtr,
    pub recv: CapPtr,
    pub manager: FossilManager,
    /// The clients that have a ring.
    pub client_rings: BTreeSet<usize>,
    /// The devices that the server is connected to, and whether it has a ring to them.
    pub device_clients: BTreeMap<usize, bool>,
    pub probed_hardware: BTreeSet<u64>,
    pub next_partition_badge: usize,
    pub next_ring_vaddr: usize,
    pub page_size: usize,
    pub running: bool,
}

/// The state of the server as a mathematical object.
#[verifier::ext_equal]
pub struct ServerState {
    pub endpoint: Endpoint,
    pub reply: CapPtr,
    pub recv: CapPtr,
    pub partitions: Map<usize, PartitionProxy>,
    pub client_rings: Set<usize>,
    pub device_clients: Map<usize, bool>,
    pub probed_hardware: Set<u64>,
    pub next_badge: usize,
    pub next_ring_vaddr: usize,
    pub page_size: usize,
    pub running: bool,
}

impl View for FossilServer {
    type V = ServerState;

    open spec fn view(&self) -> ServerState {
        ServerState {
            endpoint: self.endpoint,
            reply: self.reply,
            recv: self.recv,
            partitions: self.manager@,
            client_rings: self.client_rings@,
            device_clients: self.device_clients@,
            probed_hardware: self.probed_hardware@,
            next_badge: self.next_partition_badge,
            next_ring_vaddr: self.next_ring_vaddr,
            page_size: self.page_size,
            running: self.running,
        }
    }
}

/// The numbers by which the protocols know their requests.
#[derive(Debug, Clone, Copy)]
pub struct Protocol {
    pub device: usize,
    pub update: usize,
    pub block: usize,
    pub get_capacity: usize,
    pub setup_ring: usize,
    pub notify_sq: usize,
}

/// What a message asks for.
#[derive(Debug, Clone, Copy, PartialEq, Eq, Structural)]
pub enum Request {
    /// Attention to a device that the message describes.
    Update,
    /// The size of the caller's partition.
    GetCapacity,
    /// A ring.
    SetupRing,
    /// Attention to the requests in the caller's ring.
    NotifySq,
}

/// What a message asks for.
pub open spec fn request_of(proto: Protocol, msg_proto: usize, label: usize) -> Option<Request> {
    if msg_proto == proto.device && label == proto.update {
        Some(Request::Update)
    } else if msg_proto == proto.block && label == proto.get_capacity {
        Some(Request::GetCapacity)
    } else if msg_proto == proto.block && label == proto.setup_ring {
        Some(Request::SetupRing)
    } else if msg_proto == proto.block && label == proto.notify_sq {
        Some(Request::NotifySq)
    } else {
        None
    }
}

/// Which results publishing a partition under a badge may give.
pub type PublishAnswers = spec_fn(LogicDeviceDesc, usize, Result<(), Error>) -> bool;

/// The results that a closure which publishes partitions may give.
pub open spec fn publish_answers<P: FnMut(LogicDeviceDesc, usize) -> Result<(), Error>>(
    publish: P,
) -> PublishAnswers {
    |desc: LogicDeviceDesc, badge: usize, out: Result<(), Error>|
        call_ensures(publish, (desc, badge), out)
}

/// What is needed of the closure that publishes partitions: it may be given any, each with the
/// badge that its description holds.
pub open spec fn publishes<P: FnMut(LogicDeviceDesc, usize) -> Result<(), Error>>(
    publish: P,
) -> bool {
    forall|desc: LogicDeviceDesc, badge: usize|
        desc.badge == Some(badge as u64) ==> #[trigger] call_requires(publish, (desc, badge))
}

/// What is needed of the closures through which the server reaches a device and publishes its
/// partitions: each may be called once those before it went well, and none unless the device is a
/// disk that was not probed before.
pub open spec fn reaches<
    C: FnOnce() -> Result<(), Error>,
    M: FnOnce(usize) -> Result<(), Error>,
    R: FnMut(u64) -> Result<Vec<u8>, Error>,
    P: FnMut(LogicDeviceDesc, usize) -> Result<(), Error>,
>(
    setup: C,
    map: M,
    read: R,
    publish: P,
    hw_badge: u64,
    dev_type: LogicDeviceType,
    state: ServerState,
) -> bool {
    dev_type is RawBlock && !state.probed_hardware.contains(hw_badge) ==> {
        &&& connects(setup, map, state)
        &&& sets_up(setup) && maps(map, state.next_ring_vaddr) ==> call_requires(read, (0u64,))
        &&& forall|sector0: Vec<u8>| #[trigger]
            call_ensures(read, (0u64,), Ok::<Vec<u8>, Error>(sector0)) ==> manager::reads_disk(
                read,
                sector0@,
            ) && publishes(publish)
    }
}

/// Whether a ring may be set up.
pub open spec fn sets_up<C: FnOnce() -> Result<(), Error>>(setup: C) -> bool {
    exists|made: Result<(), Error>| #[trigger] call_ensures(setup, (), made) && made is Ok
}

/// Whether a ring may be mapped at an address.
pub open spec fn maps<M: FnOnce(usize) -> Result<(), Error>>(map: M, vaddr: usize) -> bool {
    exists|mapped: Result<(), Error>| #[trigger]
        call_ensures(map, (vaddr,), mapped) && mapped is Ok
}

/// What is needed of the closures that set up a ring and map it: the ring is mapped at the next
/// address, once it was set up.
pub open spec fn connects<
    C: FnOnce() -> Result<(), Error>,
    M: FnOnce(usize) -> Result<(), Error>,
>(setup: C, map: M, state: ServerState) -> bool {
    &&& call_requires(setup, ())
    &&& sets_up(setup) ==> call_requires(map, (state.next_ring_vaddr,))
}

/// What is needed of the closures that allocate a frame and map it, to make a ring for a client
/// that has none: the frame that was allocated is mapped at the next address.
pub open spec fn makes_ring<
    A: FnOnce() -> Result<CapPtr, Error>,
    M: FnOnce(CapPtr, usize) -> Result<(), Error>,
>(alloc: A, map: M, state: ServerState, badge: usize) -> bool {
    !state.client_rings.contains(badge) ==> {
        &&& call_requires(alloc, ())
        &&& forall|frame: CapPtr| #[trigger]
            call_ensures(alloc, (), Ok::<CapPtr, Error>(frame)) ==> call_requires(
                map,
                (frame, state.next_ring_vaddr),
            )
    }
}

/// The partitions to publish where `found` was found: without any, the whole device is one.
pub open spec fn to_publish(
    device: DescView,
    capacity_bytes: u64,
    found: Seq<(DescView, u64)>,
) -> Seq<(DescView, u64)> {
    if found.len() == 0 {
        seq![
            (
                DescView {
                    name: device.name,
                    dev_type: LogicDeviceType::Block((capacity_bytes as int / 512) as u64),
                    parent_name: device.name,
                    badge: None,
                },
                0u64,
            ),
        ]
    } else {
        found
    }
}

impl ServerState {
    /// The server after the next badge was given out.
    pub open spec fn with_next_badge(self) -> ServerState {
        ServerState { next_badge: self.next_badge.wrapping_add(1), ..self }
    }

    /// The server with one more partition of a device.
    pub open spec fn with_partition(
        self,
        badge: usize,
        hw_badge: u64,
        part: (DescView, u64),
    ) -> ServerState {
        match part.0.dev_type {
            LogicDeviceType::Block(num_blocks) => ServerState {
                partitions: self.partitions.insert(
                    badge,
                    PartitionProxy {
                        meta: PartitionMetadata {
                            parent: hw_badge,
                            start_lba: part.1,
                            num_blocks,
                            block_size: 512,
                        },
                    },
                ),
                ..self
            },
            _ => self,
        }
    }

    /// Whether a partition of a device is registered under a badge; what is no block device is not
    /// registered.
    pub open spec fn knows(self, badge: usize, hw_badge: u64, part: (DescView, u64)) -> bool {
        match part.0.dev_type {
            LogicDeviceType::Block(num_blocks) => {
                &&& self.partitions.contains_key(badge)
                &&& self.partitions[badge].meta == (PartitionMetadata {
                    parent: hw_badge,
                    start_lba: part.1,
                    num_blocks,
                    block_size: 512,
                })
            },
            _ => true,
        }
    }
}

/// The partitions from number `i` on were published and registered: all of them, or up to the first
/// that could not be published.
pub open spec fn published(
    publish: PublishAnswers,
    hw_badge: u64,
    parts: Seq<(DescView, u64)>,
    i: int,
    before: ServerState,
    after: ServerState,
    failed: Option<Error>,
) -> bool
    decreases parts.len() - i,
{
    if i >= parts.len() {
        after == before && failed is None
    } else {
        let badge = before.next_badge;
        exists|desc: LogicDeviceDesc, out: Result<(), Error>| #[trigger]
            publish(desc, badge, out) && desc@ == (DescView {
                badge: Some(badge as u64),
                ..parts[i].0
            }) && match out {
                Err(e) => after == before.with_next_badge() && failed == Some(e),
                Ok(_) => published(
                    publish,
                    hw_badge,
                    parts,
                    i + 1,
                    before.with_next_badge().with_partition(badge, hw_badge, parts[i]),
                    after,
                    failed,
                ),
            }
    }
}

/// A device with first sector `sector0` was searched, and what was found is published.
pub open spec fn searched<R: FnMut(u64) -> Result<Vec<u8>, Error>>(
    read: R,
    publish: PublishAnswers,
    hw_badge: u64,
    device: DescView,
    capacity_bytes: u64,
    sector0: Seq<u8>,
    before: ServerState,
    after: ServerState,
    failed: Option<Error>,
) -> bool {
    exists|found: Seq<(DescView, u64)>, registered: ServerState|
        {
            &&& #[trigger] manager::parts_listed(
                read,
                device,
                sector0,
                (capacity_bytes as int / 512) as u64,
                found,
            )
            &&& #[trigger] published(
                publish,
                hw_badge,
                to_publish(device, capacity_bytes, found),
                0,
                before,
                registered,
                failed,
            )
            &&& after == (match failed {
                Some(_) => registered,
                None => ServerState {
                    device_clients: registered.device_clients.insert(hw_badge as usize, true),
                    ..registered
                },
            })
        }
}

/// A device was connected to: a ring was set up and mapped at the next address.
pub open spec fn connected<
    C: FnOnce() -> Result<(), Error>,
    M: FnOnce(usize) -> Result<(), Error>,
>(setup: C, map: M, before: ServerState, after: ServerState, failed: Option<Error>) -> bool {
    exists|made: Result<(), Error>| #[trigger]
        call_ensures(setup, (), made) && match made {
            Err(e) => after == before && failed == Some(e),
            Ok(_) => {
                &&& after == (ServerState {
                    next_ring_vaddr: before.next_ring_vaddr.wrapping_add(before.page_size),
                    ..before
                })
                &&& exists|mapped: Result<(), Error>| #[trigger]
                    call_ensures(map, (before.next_ring_vaddr,), mapped) && failed
                        == fossil::failure(mapped)
            },
        }
}

/// A device that was reported was probed, unless it was before or is no disk.
pub open spec fn device_probed<
    C: FnOnce() -> Result<(), Error>,
    M: FnOnce(usize) -> Result<(), Error>,
    R: FnMut(u64) -> Result<Vec<u8>, Error>,
>(
    setup: C,
    map: M,
    read: R,
    publish: PublishAnswers,
    hw_badge: u64,
    device: DescView,
    before: ServerState,
    after: ServerState,
    failed: Option<Error>,
) -> bool {
    let noted = ServerState { probed_hardware: before.probed_hardware.insert(hw_badge), ..before };
    if before.probed_hardware.contains(hw_badge) {
        after == before && failed is None
    } else {
        match device.dev_type {
            LogicDeviceType::RawBlock(capacity_bytes) => {
                exists|ready: ServerState, unconnected: Option<Error>| #[trigger]
                    connected(setup, map, noted, ready, unconnected) && match unconnected {
                        Some(e) => after == ready && failed == Some(e),
                        None => exists|first: Result<Vec<u8>, Error>| #[trigger]
                            call_ensures(read, (0u64,), first) && match first {
                                Err(e) => after == ready && failed == Some(e),
                                Ok(sector0) => searched(
                                    read,
                                    publish,
                                    hw_badge,
                                    device,
                                    capacity_bytes,
                                    sector0@,
                                    ready,
                                    after,
                                    failed,
                                ),
                            },
                    }
            },
            _ => after == noted && failed is None,
        }
    }
}

/// A ring was made for a client, unless it had one. An address is used up once there is a frame
/// to map there.
pub open spec fn ring_made<
    A: FnOnce() -> Result<CapPtr, Error>,
    M: FnOnce(CapPtr, usize) -> Result<(), Error>,
>(
    alloc: A,
    map: M,
    badge: usize,
    before: ServerState,
    after: ServerState,
    r: Result<CapPtr, Error>,
) -> bool {
    let vaddr = before.next_ring_vaddr;
    let moved = ServerState {
        next_ring_vaddr: vaddr.wrapping_add(before.page_size),
        ..before
    };
    if before.client_rings.contains(badge) {
        after == before && r == Err::<CapPtr, Error>(Error::AlreadyExists)
    } else {
        exists|out: Result<CapPtr, Error>| #[trigger]
            call_ensures(alloc, (), out) && match out {
                Err(e) => after == before && r == Err::<CapPtr, Error>(e),
                Ok(frame) => exists|mapped: Result<(), Error>| #[trigger]
                    call_ensures(map, (frame, vaddr), mapped) && match mapped {
                        Err(e) => after == moved && r == Err::<CapPtr, Error>(e),
                        Ok(_) => after == (ServerState {
                            client_rings: moved.client_rings.insert(badge),
                            ..moved
                        }) && r == Ok::<CapPtr, Error>(frame),
                    },
            }
    }
}

impl FossilServer {
    /// A server that knows of no device yet, on a machine with pages of `page_size` bytes.
    pub fn new(endpoint: Endpoint, manager: FossilManager, page_size: usize) -> (r: FossilServer)
        requires
            PROBE_VADDR + page_size * RING_PAGES <= usize::MAX,
        ensures
            r@ == (ServerState {
                endpoint,
                reply: CAP_NULL,
                recv: CAP_NULL,
                partitions: manager@,
                client_rings: Set::empty(),
                device_clients: Map::empty(),
                probed_hardware: Set::empty(),
                next_badge: FIRST_BADGE,
                next_ring_vaddr: (PROBE_VADDR + page_size * RING_PAGES) as usize,
                page_size,
                running: false,
            }),
            r@.next_badge == 0x1000,
            r@.next_ring_vaddr == 0x5000_0000 + 64 * page_size,
    {
        FossilServer {
            endpoint,
            reply: CAP_NULL,
            recv: CAP_NULL,
            manager,
            client_rings: BTreeSet::new(),
            device_clients: BTreeMap::new(),
            probed_hardware: BTreeSet::new(),
            next_partition_badge: FIRST_BADGE,
            next_ring_vaddr: PROBE_VADDR + page_size * RING_PAGES,
            page_size,
            running: false,
        }
    }

    /// Whether a device that was reported is to be probed. A disk must come with its endpoint.
    pub fn handle_update(dev_type: LogicDeviceType, has_cap: bool) -> (r: Result<bool, Error>)
        ensures
            r == (match dev_type {
                LogicDeviceType::RawBlock(_) => if has_cap {
                    Ok::<bool, Error>(true)
                } else {
                    Err::<bool, Error>(Error::InvalidArgs)
                },
                _ => Ok::<bool, Error>(false),
            }),
    {
        match dev_type {
            LogicDeviceType::RawBlock(_) => {
                if has_cap {
                    Ok(true)
                } else {
                    Err(Error::InvalidArgs)
                }
            },
            _ => Ok(false),
        }
    }

    fn publish_partitions<P: FnMut(LogicDeviceDesc, usize) -> Result<(), Error>>(
        &mut self,
        hw_badge_bits: u64,
        parts: Vec<(LogicDeviceDesc, u64)>,
        publish: &mut P,
    ) -> (failed: Option<Error>)
        requires
            publishes(*old(publish)),
        ensures
            *final(publish) == *old(publish),
            published(
                publish_answers(*old(publish)),
                hw_badge_bits,
                manager::parts_view(parts@),
                0,
                old(self)@,
                final(self)@,
                failed,
            ),
    {
        let ghost all = manager::parts_view(parts@);
        let ghost start = self@;
        let mut i: usize = 0;
        while i < parts.len()
            invariant
                i <= parts@.len(),
                all == manager::parts_view(parts@),
                start == old(self)@,
                *publish == *old(publish),
                publishes(*publish),
                forall|after: ServerState, failed: Option<Error>| #[trigger]
                    published(
                        publish_answers(*old(publish)),
                        hw_badge_bits,
                        all,
                        i as int,
                        self@,
                        after,
                        failed,
                    ) ==> published(
                        publish_answers(*old(publish)),
                        hw_badge_bits,
                        all,
                        0,
                        start,
                        after,
                        failed,
                    ),
            decreases parts@.len() - i,
        {
            let ghost now = self@;
            let local_badge: usize = self.next_partition_badge;
            self.next_partition_badge = local_badge.wrapping_add(1);
            assert(self@ =~= now.with_next_badge());
            let start_lba: u64 = parts[i].1;
            let dev_type: LogicDeviceType = parts[i].0.dev_type;
            let desc = LogicDeviceDesc {
                name: parts[i].0.name.clone(),
                dev_type,
                parent_name: parts[i].0.parent_name.clone(),
                badge: Some(local_badge as u64),
            };
            let ghost given = desc;
            assert(desc@ == (DescView { badge: Some(local_badge as u64), ..all[i as int].0 }));
            let out = publish(desc, local_badge);
            assert(publish_answers(*old(publish))(given, local_badge, out));
            match out {
                Err(e) => {
                    assert(published(
                        publish_answers(*old(publish)),
                        hw_badge_bits,
                        all,
                        i as int,
                        now,
                        self@,
                        Some(e),
                    ));
                    return Some(e);
                },
                Ok(_) => {},
            }
            if let LogicDeviceType::Block(num_blocks) = dev_type {
                let meta = PartitionMetadata {
                    parent: hw_badge_bits,
                    start_lba,
                    num_blocks,
                    block_size: 512,
                };
                let proxy = PartitionProxy { meta };
                self.manager.register_proxy(local_badge, proxy);
            }
            proof {
                assert(self@ =~= now.with_next_badge().with_partition(
                    local_badge,
                    hw_badge_bits,
                    all[i as int],
                ));
                assert forall|after: ServerState, failed: Option<Error>| #[trigger]
                    published(
                        publish_answers(*old(publish)),
                        hw_badge_bits,
                        all,
                        i + 1,
                        self@,
                        after,
                        failed,
                    ) implies published(
                    publish_answers(*old(publish)),
                    hw_badge_bits,
                    all,
                    0,
                    start,
                    after,
                    failed,
                ) by {
                    assert(published(
                        publish_answers(*old(publish)),
                        hw_badge_bits,
                        all,
                        i as int,
                        now,
                        after,
                        failed,
                    ));
                }
            }
            i = i + 1;
        }
        assert(published(
            publish_answers(*old(publish)),
            hw_badge_bits,
            all,
            i as int,
            self@,
            self@,
            None,
        ));
        None
    }

    fn connect<C: FnOnce() -> Result<(), Error>, M: FnOnce(usize) -> Result<(), Error>>(
        &mut self,
        setup: C,
        map: M,
    ) -> (failed: Option<Error>)
        requires
            connects(setup, map, old(self)@),
        ensures
            connected(setup, map, old(self)@, final(self)@, failed),
    {
        let made = setup();
        assert(call_ensures(setup, (), made));
        if let Err(e) = made {
            return Some(e);
        }
        let vaddr: usize = self.next_ring_vaddr;
        self.next_ring_vaddr = vaddr.wrapping_add(self.page_size);
        assert(self@ =~= (ServerState {
            next_ring_vaddr: old(self)@.next_ring_vaddr.wrapping_add(old(self)@.page_size),
            ..old(self)@
        }));
        let mapped = map(vaddr);
        assert(call_ensures(map, (old(self)@.next_ring_vaddr,), mapped));
        match mapped {
            Ok(_) => None,
            Err(e) => Some(e),
        }
    }

    /// Probes a device that was reported: connects to it, finds its partitions, or takes the whole
    /// device as one, publishes them and registers them under new badges. A device is probed once.
    pub fn probe_device<
        C: FnOnce() -> Result<(), Error>,
        M: FnOnce(usize) -> Result<(), Error>,
        R: FnMut(u64) -> Result<Vec<u8>, Error>,
        P: FnMut(LogicDeviceDesc, usize) -> Result<(), Error>,
    >(
        &mut self,
        hw_badge_bits: u64,
        desc: &LogicDeviceDesc,
        setup: C,
        map: M,
        read: &mut R,
        publish: &mut P,
    ) -> (r: Result<(), Error>)
        requires
            reaches(
                setup,
                map,
                *old(read),
                *old(publish),
                hw_badge_bits,
                desc.dev_type,
                old(self)@,
            ),
        ensures
            device_probed(
                setup,
                map,
                *old(read),
                publish_answers(*old(publish)),
                hw_badge_bits,
                desc@,
                old(self)@,
                final(self)@,
                fossil::failure(r),
            ),
    {
        let ghost before = self@;
        if self.probed_hardware.contains(&hw_badge_bits) {
            return Ok(());
        }
        self.probed_hardware.insert(hw_badge_bits);
        let ghost noted = self@;
        assert(noted =~= (ServerState {
            probed_hardware: before.probed_hardware.insert(hw_badge_bits),
            ..before
        }));
        let capacity_bytes: u64 = match desc.dev_type {
            LogicDeviceType::RawBlock(capacity_bytes) => capacity_bytes,
            _ => {
                return Ok(());
            },
        };
        let unconnected = self.connect(setup, map);
        let ghost ready = self@;
        assert(connected(setup, map, noted, ready, unconnected));
        if let Some(e) = unconnected {
            return Err(e);
        }
        let first = read(0);
        assert(call_ensures(*old(read), (0u64,), first));
        let sector0: Vec<u8> = match first {
            Ok(sector0) => sector0,
            Err(e) => {
                return Err(e);
            },
        };
        let num_blocks: u64 = capacity_bytes / 512;
        let mut partitions = self.manager.probe(
            hw_badge_bits as usize,
            desc,
            sector0.as_slice(),
            num_blocks,
            read,
        );
        let ghost found = manager::parts_view(partitions@);
        if partitions.len() == 0 {
            partitions.push(
                (
                    LogicDeviceDesc {
                        name: desc.name.clone(),
                        dev_type: LogicDeviceType::Block(num_blocks),
                        parent_name: desc.name.clone(),
                        badge: None,
                    },
                    0,
                ),
            );
        }
        proof {
            assert(self@ =~= ready);
            assert(manager::parts_view(partitions@) =~= to_publish(desc@, capacity_bytes, found));
            assert(manager::parts_listed(
                *old(read),
                desc@,
                sector0@,
                (capacity_bytes as int / 512) as u64,
                found,
            ));
        }
        let failed = self.publish_partitions(hw_badge_bits, partitions, publish);
        let ghost registered = self@;
        assert(published(
            publish_answers(*old(publish)),
            hw_badge_bits,
            to_publish(desc@, capacity_bytes, found),
            0,
            ready,
            registered,
            failed,
        ));
        if let Some(e) = failed {
            assert(searched(
                *old(read),
                publish_answers(*old(publish)),
                hw_badge_bits,
                desc@,
                capacity_bytes,
                sector0@,
                ready,
                self@,
                failed,
            ));
            return Err(e);
        }
        self.device_clients.insert(hw_badge_bits as usize, true);
        proof {
            assert(self@ =~= (ServerState {
                device_clients: registered.device_clients.insert(hw_badge_bits as usize, true),
                ..registered
            }));
            assert(searched(
                *old(read),
                publish_answers(*old(publish)),
                hw_badge_bits,
                desc@,
                capacity_bytes,
                sector0@,
                ready,
                self@,
                failed,
            ));
        }
        Ok(())
    }

    /// Makes a ring for a client that has none: a frame from `alloc`, which `map` maps at the next
    /// address.
    pub fn handle_setup_ring<
        A: FnOnce() -> Result<CapPtr, Error>,
        M: FnOnce(CapPtr, usize) -> Result<(), Error>,
    >(&mut self, badge: usize, alloc: A, map: M) -> (r: Result<CapPtr, Error>)
        requires
            makes_ring(alloc, map, old(self)@, badge),
        ensures
            ring_made(alloc, map, badge, old(self)@, final(self)@, r),
    {
        if self.client_rings.contains(&badge) {
            return Err(Error::AlreadyExists);
        }
        let out = alloc();
        assert(call_ensures(alloc, (), out));
        let frame: CapPtr = match out {
            Ok(frame) => frame,
            Err(e) => {
                return Err(e);
            },
        };
        let vaddr: usize = self.next_ring_vaddr;
        self.next_ring_vaddr = vaddr.wrapping_add(self.page_size);
        let mapped = map(frame, vaddr);
        assert(call_ensures(map, (frame, vaddr), mapped));
        match mapped {
            Ok(_) => {
                self.client_rings.insert(badge);
                Ok(frame)
            },
            Err(e) => Err(e),
        }
    }

    /// The partition that a client's requests go through, if all that they need is there.
    pub open spec fn spec_sq_partition(&self, badge: usize) -> Result<PartitionProxy, Error> {
        let hw = self@.partitions[badge].meta.parent as usize;
        if !self@.client_rings.contains(badge) {
            Err(Error::NotInitialized)
        } else if !self@.partitions.contains_key(badge) || !self@.device_clients.contains_key(hw) {
            Err(Error::NotFound)
        } else if !self@.device_clients[hw] {
            Err(Error::NotInitialized)
        } else {
            Ok(self@.partitions[badge])
        }
    }

    /// The partition that a client's requests go through, if all that they need is there.
    pub fn sq_partition(&self, badge: usize) -> (r: Result<PartitionProxy, Error>)
        ensures
            r == self.spec_sq_partition(badge),
    {
        if !self.client_rings.contains(&badge) {
            return Err(Error::NotInitialized);
        }
        let proxy: PartitionProxy = match self.manager.get_partition(badge) {
            Some(proxy) => *proxy,
            None => {
                return Err(Error::NotFound);
            },
        };
        let hw: usize = proxy.meta.parent as usize;
        match self.device_clients.get(&hw) {
            Some(has_ring) => {
                if *has_ring {
                    Ok(proxy)
                } else {
                    Err(Error::NotInitialized)
                }
            },
            None => Err(Error::NotFound),
        }
    }

    /// Turns a request out of a client's ring into the request that goes to the device.
    pub fn handle_notify_sq(&self, badge: usize, sqe: IoUringSqe) -> (r: Result<IoUringSqe, Error>)
        requires
            self.spec_sq_partition(badge) matches Ok(proxy) ==> proxy.meta.start_lba
                * manager::SECTOR <= u64::MAX && sqe.off + proxy.meta.start_lba * manager::SECTOR
                <= usize::MAX,
        ensures
            r == (match self.spec_sq_partition(badge) {
                Ok(proxy) => Ok::<IoUringSqe, Error>(
                    IoUringSqe {
                        off: (sqe.off + proxy.meta.start_lba * manager::SECTOR) as usize,
                        ..sqe
                    },
                ),
                Err(e) => Err::<IoUringSqe, Error>(e),
            }),
            r is Ok ==> r->Ok_0.off - sqe.off == 512 * self@.partitions[badge].meta.start_lba,
            r is Ok ==> r->Ok_0 == (IoUringSqe { off: r->Ok_0.off, ..sqe }),
    {
        match self.sq_partition(badge) {
            Ok(proxy) => {
                let mut req = sqe;
                proxy.translate_sqe(&mut req);
                Ok(req)
            },
            Err(e) => Err(e),
        }
    }

    /// Sets where the server is called and where it answers.
    pub fn listen(&mut self, ep: Endpoint, reply: CapPtr, recv: CapPtr)
        ensures
            final(self)@ == (ServerState { endpoint: ep, reply, recv, ..old(self)@ }),
    {
        self.endpoint = ep;
        self.reply = reply;
        self.recv = recv;
    }

    /// Starts to answer requests.
    pub fn start(&mut self)
        ensures
            final(self)@ == (ServerState { running: true, ..old(self)@ }),
    {
        self.running = true;
    }

    /// Stops to answer requests.
    pub fn stop(&mut self)
        ensures
            final(self)@ == (ServerState { running: false, ..old(self)@ }),
    {
        self.running = false;
    }

    /// Tells what a message asks for; a message that asks for nothing known is an invalid method.
    pub fn dispatch(proto: &Protocol, msg_proto: usize, label: usize) -> (r: Result<Request, Error>)
        ensures
            r == (match request_of(*proto, msg_proto, label) {
                Some(request) => Ok::<Request, Error>(request),
                None => Err::<Request, Error>(Error::InvalidMethod),
            }),
    {
        if msg_proto == proto.device && label == proto.update {
            Ok(Request::Update)
        } else if msg_proto == proto.block && label == proto.get_capacity {
            Ok(Request::GetCapacity)
        } else if msg_proto == proto.block && label == proto.setup_ring {
            Ok(Request::SetupRing)
        } else if msg_proto == proto.block && label == proto.notify_sq {
            Ok(Request::NotifySq)
        } else {
            Err(Error::InvalidMethod)
        }
    }

    /// The size of the caller's partition in blocks.
    pub fn get_capacity(&self, badge: usize) -> (r: Result<usize, Error>)
        ensures
            r == (if self@.partitions.contains_key(badge) {
                Ok::<usize, Error>(self@.partitions[badge].meta.num_blocks as usize)
            } else {
                Err::<usize, Error>(Error::NotFound)
            }),
            r is Ok && self@.partitions[badge].meta.num_blocks <= usize::MAX ==> r->Ok_0
                == self@.partitions[badge].meta.num_blocks,
    {
        match self.manager.get_partition(badge) {
            Some(partition) => Ok(partition.meta.num_blocks as usize),
            None => Err(Error::NotFound),
        }
    }
}

/// A device is probed once: after a probe, another changes nothing.
pub proof fn law_devices_are_probed_once<
    C: FnOnce() -> Result<(), Error>,
    M: FnOnce(usize) -> Result<(), Error>,
    R: FnMut(u64) -> Result<Vec<u8>, Error>,
>(
    setup: C,
    map: M,
    read: R,
    publish: PublishAnswers,
    hw_badge: u64,
    device: DescView,
    before: ServerState,
    between: ServerState,
    first: Option<Error>,
    after: ServerState,
    second: Option<Error>,
)
    requires
        device_probed(setup, map, read, publish, hw_badge, device, before, between, first),
        device_probed(setup, map, read, publish, hw_badge, device, between, after, second),
    ensures
        after == between,
        second is None,
{
    lemma_probe_is_noted(setup, map, read, publish, hw_badge, device, before, between, first);
}

/// What is published is known under its badge: the partitions of a device get the next badges, one
/// after the other, and requests and questions under such a badge concern that partition. Those
/// that were known before stay as they were.
pub proof fn law_published_partitions_are_known(
    publish: PublishAnswers,
    hw_badge: u64,
    parts: Seq<(DescView, u64)>,
    before: ServerState,
    after: ServerState,
)
    requires
        published(publish, hw_badge, parts, 0, before, after, None),
        before.next_badge + parts.len() <= usize::MAX,
    ensures
        after.next_badge == before.next_badge + parts.len(),
        forall|k: int|
            0 <= k < parts.len() ==> #[trigger] after.knows(
                (before.next_badge + k) as usize,
                hw_badge,
                parts[k],
            ),
        forall|badge: usize|
            badge < before.next_badge ==> #[trigger] after.partitions.contains_key(badge)
                == before.partitions.contains_key(badge) && after.partitions[badge]
                == before.partitions[badge],
{
    lemma_publishing(publish, hw_badge, parts, 0, before, after, None);
    assert forall|k: int| 0 <= k < parts.len() implies #[trigger] after.knows(
        (before.next_badge + k) as usize,
        hw_badge,
        parts[k],
    ) by {
        assert(after.knows((before.next_badge + k - 0) as usize, hw_badge, parts[k]));
    }
}

proof fn lemma_publishing(
    publish: PublishAnswers,
    hw_badge: u64,
    parts: Seq<(DescView, u64)>,
    i: int,
    before: ServerState,
    after: ServerState,
    failed: Option<Error>,
)
    requires
        0 <= i <= parts.len(),
        published(publish, hw_badge, parts, i, before, after, failed),
    ensures
        after.probed_hardware == before.probed_hardware,
        before.next_badge + parts.len() - i <= usize::MAX ==> forall|badge: usize|
            badge < before.next_badge ==> #[trigger] after.partitions.contains_key(badge)
                == before.partitions.contains_key(badge) && after.partitions[badge]
                == before.partitions[badge],
        before.next_badge + parts.len() - i <= usize::MAX && failed is None ==> {
            &&& after.next_badge == before.next_badge + parts.len() - i
            &&& forall|k: int|
                i <= k < parts.len() ==> #[trigger] after.knows(
                    (before.next_badge + k - i) as usize,
                    hw_badge,
                    parts[k],
                )
        },
    decreases parts.len() - i,
{
    if i < parts.len() {
        let badge = before.next_badge;
        let next = before.with_next_badge().with_partition(badge, hw_badge, parts[i]);
        let (desc, out) = choose|desc: LogicDeviceDesc, out: Result<(), Error>| #[trigger]
            publish(desc, badge, out) && desc@ == (DescView {
                badge: Some(badge as u64),
                ..parts[i].0
            }) && match out {
                Err(e) => after == before.with_next_badge() && failed == Some(e),
                Ok(_) => published(publish, hw_badge, parts, i + 1, next, after, failed),
            };
        if out is Ok {
            lemma_publishing(publish, hw_badge, parts, i + 1, next, after, failed);
            if before.next_badge + parts.len() - i <= usize::MAX && failed is None {
                assert forall|k: int| i <= k < parts.len() implies #[trigger] after.knows(
                    (before.next_badge + k - i) as usize,
                    hw_badge,
                    parts[k],
                ) by {
                    if k == i {
                        assert(next.knows(badge, hw_badge, parts[i]));
                        assert(after.partitions.contains_key(badge)
                            == next.partitions.contains_key(badge));
                    } else {
                        assert(after.knows(
                            (next.next_badge + k - (i + 1)) as usize,
                            hw_badge,
                            parts[k],
                        ));
                    }
                }
            }
        }
    }
}

proof fn lemma_probe_is_noted<
    C: FnOnce() -> Result<(), Error>,
    M: FnOnce(usize) -> Result<(), Error>,
    R: FnMut(u64) -> Result<Vec<u8>, Error>,
>(
    setup: C,
    map: M,
    read: R,
    publish: PublishAnswers,
    hw_badge: u64,
    device: DescView,
    before: ServerState,
    after: ServerState,
    failed: Option<Error>,
)
    requires
        device_probed(setup, map, read, publish, hw_badge, device, before, after, failed),
    ensures
        after.probed_hardware.contains(hw_badge),
{
    if !before.probed_hardware.contains(hw_badge) {
        if let LogicDeviceType::RawBlock(capacity_bytes) = device.dev_type {
            let noted = ServerState {
                probed_hardware: before.probed_hardware.insert(hw_badge),
                ..before
            };
            let (ready, unconnected) = choose|ready: ServerState, unconnected: Option<Error>|
                #[trigger]
                connected(setup, map, noted, ready, unconnected) && match unconnected {
                    Some(e) => after == ready && failed == Some(e),
                    None => exists|first: Result<Vec<u8>, Error>| #[trigger]
                        call_ensures(read, (0u64,), first) && match first {
                            Err(e) => after == ready && failed == Some(e),
                            Ok(sector0) => searched(
                                read,
                                publish,
                                hw_badge,
                                device,
                                capacity_bytes,
                                sector0@,
                                ready,
                                after,
                                failed,
                            ),
                        },
                };
            if unconnected is None {
                let first = choose|first: Result<Vec<u8>, Error>| #[trigger]
                    call_ensures(read, (0u64,), first) && match first {
                        Err(e) => after == ready && failed == Some(e),
                        Ok(sector0) => searched(
                            read,
                            publish,
                            hw_badge,
                            device,
                            capacity_bytes,
                            sector0@,
                            ready,
                            after,
                            failed,
                        ),
                    };
                if let Ok(sector0) = first {
                    let (found, registered) = choose|
                        found: Seq<(DescView, u64)>,
                        registered: ServerState,
                    |
                        {
                            &&& #[trigger] manager::parts_listed(
                                read,
                                device,
                                sector0@,
                                (capacity_bytes as int / 512) as u64,
                                found,
                            )
                            &&& #[trigger] published(
                                publish,
                                hw_badge,
                                to_publish(device, capacity_bytes, found),
                                0,
                                ready,
                                registered,
                                failed,
                            )
                            &&& after == (match failed {
                                Some(_) => registered,
                                None => ServerState {
                                    device_clients: registered.device_clients.insert(
                                        hw_badge as usize,
                                        true,
                                    ),
                                    ..registered
                                },
                            })
                        };
                    lemma_publishing(
                        publish,
                        hw_badge,
                        to_publish(device, capacity_bytes, found),
                        0,
                        ready,
                        registered,
                        failed,
                    );
                }
            }
        }
    }
}

/// Where nothing was found, the whole device is published under its own name, from its start on, as
/// many blocks of 512 bytes as it holds; otherwise what was found is.
pub proof fn law_whole_device_is_published(
    device: DescView,
    capacity_bytes: u64,
    found: Seq<(DescView, u64)>,
)
    ensures
        found.len() > 0 ==> to_publish(device, capacity_bytes, found) == found,
        found.len() == 0 ==> {
            let parts = to_publish(device, capacity_bytes, found);
            &&& parts.len() == 1
            &&& parts[0].1 == 0
            &&& parts[0].0.name == device.name
            &&& parts[0].0.parent_name == device.name
            &&& parts[0].0.badge is None
            &&& parts[0].0.dev_type is Block
            &&& 512 * parts[0].0.dev_type->Block_0 <= capacity_bytes < 512
                * parts[0].0.dev_type->Block_0 + 512
        },
{
}

/// Each partition is published under the next badge, which its description holds, and is then
/// registered under it as a partition of the device, with blocks of 512 bytes, its first block and
/// its number of blocks. `descs` are the descriptions that were published.
pub proof fn law_partitions_are_published_in_order(
    publish: PublishAnswers,
    hw_badge: u64,
    parts: Seq<(DescView, u64)>,
    before: ServerState,
    after: ServerState,
) -> (descs: Seq<LogicDeviceDesc>)
    requires
        before.next_badge + parts.len() <= usize::MAX,
        published(publish, hw_badge, parts, 0, before, after, None),
    ensures
        after.next_badge == before.next_badge + parts.len(),
        descs.len() == parts.len(),
        forall|k: int|
            #![trigger parts[k]]
            0 <= k < parts.len() ==> {
                let badge = (before.next_badge + k) as usize;
                &&& exists|out: Result<(), Error>| #[trigger]
                    publish(descs[k], badge, out) && out is Ok
                &&& descs[k].name@ == parts[k].0.name
                &&& descs[k].dev_type == parts[k].0.dev_type
                &&& descs[k].parent_name@ == parts[k].0.parent_name
                &&& descs[k].badge == Some(badge as u64)
                &&& parts[k].0.dev_type is Block ==> {
                    let meta = after.partitions[badge].meta;
                    &&& after.partitions.contains_key(badge)
                    &&& meta.parent == hw_badge
                    &&& meta.start_lba == parts[k].1
                    &&& meta.num_blocks == parts[k].0.dev_type->Block_0
                    &&& meta.block_size == 512
                }
            },
        after == (ServerState {
            partitions: after.partitions,
            next_badge: after.next_badge,
            ..before
        }),
{
    law_published_partitions_are_known(publish, hw_badge, parts, before, after);
    let descs = lemma_descriptions(publish, hw_badge, parts, 0, before, after);
    assert forall|k: int|
        #![trigger parts[k]]
        0 <= k < parts.len() implies {
        let badge = (before.next_badge + k) as usize;
        &&& exists|out: Result<(), Error>| #[trigger] publish(descs[k], badge, out) && out is Ok
        &&& descs[k].name@ == parts[k].0.name
        &&& descs[k].dev_type == parts[k].0.dev_type
        &&& descs[k].parent_name@ == parts[k].0.parent_name
        &&& descs[k].badge == Some(badge as u64)
        &&& parts[k].0.dev_type is Block ==> {
            let meta = after.partitions[badge].meta;
            &&& after.partitions.contains_key(badge)
            &&& meta.parent == hw_badge
            &&& meta.start_lba == parts[k].1
            &&& meta.num_blocks == parts[k].0.dev_type->Block_0
            &&& meta.block_size == 512
        }
    } by {
        assert(is_published(publish, parts, before.next_badge - 0, descs, k));
        assert(after.knows((before.next_badge + k) as usize, hw_badge, parts[k]));
    }
    descs
}

/// Whether partition number `k` was published, as `descs` say, under its badge, where the first
/// has the badge `first`.
spec fn is_published(
    publish: PublishAnswers,
    parts: Seq<(DescView, u64)>,
    first: int,
    descs: Seq<LogicDeviceDesc>,
    k: int,
) -> bool {
    let badge = (first + k) as usize;
    &&& exists|out: Result<(), Error>| #[trigger] publish(descs[k], badge, out) && out is Ok
    &&& descs[k]@ == (DescView { badge: Some(badge as u64), ..parts[k].0 })
}

proof fn lemma_descriptions(
    publish: PublishAnswers,
    hw_badge: u64,
    parts: Seq<(DescView, u64)>,
    i: int,
    before: ServerState,
    after: ServerState,
) -> (descs: Seq<LogicDeviceDesc>)
    requires
        0 <= i <= parts.len(),
        before.next_badge + parts.len() - i <= usize::MAX,
        published(publish, hw_badge, parts, i, before, after, None),
    ensures
        descs.len() == parts.len(),
        forall|k: int|
            i <= k < parts.len() ==> #[trigger] is_published(
                publish,
                parts,
                before.next_badge - i,
                descs,
                k,
            ),
        after == (ServerState {
            partitions: after.partitions,
            next_badge: after.next_badge,
            ..before
        }),
    decreases parts.len() - i,
{
    if i >= parts.len() {
        Seq::new(parts.len(), |k: int| arbitrary())
    } else {
        let badge = before.next_badge;
        let next = before.with_next_badge().with_partition(badge, hw_badge, parts[i]);
        let (desc, out) = choose|desc: LogicDeviceDesc, out: Result<(), Error>| #[trigger]
            publish(desc, badge, out) && desc@ == (DescView {
                badge: Some(badge as u64),
                ..parts[i].0
            }) && match out {
                Err(e) => after == before.with_next_badge() && None::<Error> == Some(e),
                Ok(_) => published(publish, hw_badge, parts, i + 1, next, after, None),
            };
        assert(out is Ok);
        let rest = lemma_descriptions(publish, hw_badge, parts, i + 1, next, after);
        let descs = rest.update(i, desc);
        assert forall|k: int| i <= k < parts.len() implies #[trigger] is_published(
            publish,
            parts,
            before.next_badge - i,
            descs,
            k,
        ) by {
            if k > i {
                assert(is_published(publish, parts, next.next_badge - (i + 1), rest, k));
                assert(descs[k] == rest[k]);
            }
        }
        descs
    }
}

/// A device that is no disk is only noted. A disk is connected to and its first sector read; where
/// that goes well, what is found on it is published, and then it takes requests. `w` are the
/// server once connected, what the first sector read as, what was found, and the server after it
/// was published.
pub proof fn law_disks_are_connected_and_searched<
    C: FnOnce() -> Result<(), Error>,
    M: FnOnce(usize) -> Result<(), Error>,
    R: FnMut(u64) -> Result<Vec<u8>, Error>,
>(
    setup: C,
    map: M,
    read: R,
    publish: PublishAnswers,
    hw_badge: u64,
    device: DescView,
    before: ServerState,
    after: ServerState,
    failed: Option<Error>,
) -> (w: (ServerState, Vec<u8>, Seq<(DescView, u64)>, ServerState))
    requires
        !before.probed_hardware.contains(hw_badge),
        device_probed(setup, map, read, publish, hw_badge, device, before, after, failed),
    ensures
        after.probed_hardware.contains(hw_badge),
        !(device.dev_type is RawBlock) ==> failed is None && after == (ServerState {
            probed_hardware: before.probed_hardware.insert(hw_badge),
            ..before
        }),
        device.dev_type is RawBlock && failed is None ==> {
            let bytes = device.dev_type->RawBlock_0;
            let blocks = (bytes as int / 512) as u64;
            &&& connected(
                setup,
                map,
                ServerState { probed_hardware: before.probed_hardware.insert(hw_badge), ..before },
                w.0,
                None,
            )
            &&& call_ensures(read, (0u64,), Ok::<Vec<u8>, Error>(w.1))
            &&& 512 * blocks <= bytes < 512 * blocks + 512
            &&& manager::parts_listed(read, device, w.1@, blocks, w.2)
            &&& published(
                publish,
                hw_badge,
                to_publish(device, bytes, w.2),
                0,
                w.0,
                w.3,
                None,
            )
            &&& after.partitions == w.3.partitions
            &&& hw_badge <= usize::MAX ==> after.device_clients.contains_key(hw_badge as usize)
                && after.device_clients[hw_badge as usize]
        },
{
    lemma_probe_is_noted(setup, map, read, publish, hw_badge, device, before, after, failed);
    if device.dev_type is RawBlock && failed is None {
        let bytes = device.dev_type->RawBlock_0;
        let noted = ServerState {
            probed_hardware: before.probed_hardware.insert(hw_badge),
            ..before
        };
        let (ready, unconnected) = choose|ready: ServerState, unconnected: Option<Error>| #[trigger]
            connected(setup, map, noted, ready, unconnected) && match unconnected {
                Some(e) => after == ready && failed == Some(e),
                None => exists|first: Result<Vec<u8>, Error>| #[trigger]
                    call_ensures(read, (0u64,), first) && match first {
                        Err(e) => after == ready && failed == Some(e),
                        Ok(sector0) => searched(
                            read,
                            publish,
                            hw_badge,
                            device,
                            bytes,
                            sector0@,
                            ready,
                            after,
                            failed,
                        ),
                    },
            };
        let first = choose|first: Result<Vec<u8>, Error>| #[trigger]
            call_ensures(read, (0u64,), first) && match first {
                Err(e) => after == ready && failed == Some(e),
                Ok(sector0) => searched(
                    read,
                    publish,
                    hw_badge,
                    device,
                    bytes,
                    sector0@,
                    ready,
                    after,
                    failed,
                ),
            };
        let sector0 = first->Ok_0;
        let (found, registered) = choose|found: Seq<(DescView, u64)>, registered: ServerState|
            {
                &&& #[trigger] manager::parts_listed(
                    read,
                    device,
                    sector0@,
                    (bytes as int / 512) as u64,
                    found,
                )
                &&& #[trigger] published(
                    publish,
                    hw_badge,
                    to_publish(device, bytes, found),
                    0,
                    ready,
                    registered,
                    failed,
                )
                &&& after == (match failed {
                    Some(_) => registered,
                    None => ServerState {
                        device_clients: registered.device_clients.insert(hw_badge as usize, true),
                        ..registered
                    },
                })
            };
        (ready, sector0, found, registered)
    } else {
        arbitrary()
    }
}

/// Rings lie one page after the other: a ring is mapped at the next address, which then moves on by
/// the size of a page, whether or not mapping went well, and only once there is a ring to map.
pub proof fn law_rings_lie_page_after_page<
    C: FnOnce() -> Result<(), Error>,
    M: FnOnce(usize) -> Result<(), Error>,
>(setup: C, map: M, before: ServerState, after: ServerState, failed: Option<Error>)
    requires
        before.next_ring_vaddr + before.page_size <= usize::MAX,
        connected(setup, map, before, after, failed),
    ensures
        after.next_ring_vaddr == before.next_ring_vaddr || after.next_ring_vaddr
            == before.next_ring_vaddr + before.page_size,
        after == (ServerState { next_ring_vaddr: after.next_ring_vaddr, ..before }),
        failed is None ==> {
            &&& after.next_ring_vaddr == before.next_ring_vaddr + before.page_size
            &&& exists|made: Result<(), Error>| #[trigger]
                call_ensures(setup, (), made) && made is Ok
            &&& exists|mapped: Result<(), Error>| #[trigger]
                call_ensures(map, (before.next_ring_vaddr,), mapped) && mapped is Ok
        },
{
    let made = choose|made: Result<(), Error>| #[trigger]
        call_ensures(setup, (), made) && match made {
            Err(e) => after == before && failed == Some(e),
            Ok(_) => {
                &&& after == (ServerState {
                    next_ring_vaddr: before.next_ring_vaddr.wrapping_add(before.page_size),
                    ..before
                })
                &&& exists|mapped: Result<(), Error>| #[trigger]
                    call_ensures(map, (before.next_ring_vaddr,), mapped) && failed
                        == fossil::failure(mapped)
            },
        };
    if failed is None {
        let mapped = choose|mapped: Result<(), Error>| #[trigger]
            call_ensures(map, (before.next_ring_vaddr,), mapped) && failed == fossil::failure(
                mapped,
            );
        assert(mapped is Ok);
    }
}

/// A client gets one ring: the frame that was allocated, mapped at the next address. One that has
/// a ring is refused another.
pub proof fn law_clients_get_one_ring<
    A: FnOnce() -> Result<CapPtr, Error>,
    M: FnOnce(CapPtr, usize) -> Result<(), Error>,
>(
    alloc: A,
    map: M,
    badge: usize,
    before: ServerState,
    after: ServerState,
    r: Result<CapPtr, Error>,
)
    requires
        before.next_ring_vaddr + before.page_size <= usize::MAX,
        ring_made(alloc, map, badge, before, after, r),
    ensures
        before.client_rings.contains(badge) ==> after == before && r == Err::<CapPtr, Error>(
            Error::AlreadyExists,
        ),
        !before.client_rings.contains(badge) && r is Ok ==> {
            &&& call_ensures(alloc, (), r)
            &&& exists|mapped: Result<(), Error>| #[trigger]
                call_ensures(map, (r->Ok_0, before.next_ring_vaddr), mapped) && mapped is Ok
            &&& after.next_ring_vaddr == before.next_ring_vaddr + before.page_size
        },
        forall|other: usize| #[trigger]
            after.client_rings.contains(other) <==> before.client_rings.contains(other) || (other
                == badge && r is Ok),
        after == (ServerState {
            client_rings: after.client_rings,
            next_ring_vaddr: after.next_ring_vaddr,
            ..before
        }),
        after.next_ring_vaddr == before.next_ring_vaddr || after.next_ring_vaddr
            == before.next_ring_vaddr + before.page_size,
{
    if !before.client_rings.contains(badge) && r is Ok {
        let frame = r->Ok_0;
        assert(call_ensures(alloc, (), Ok::<CapPtr, Error>(frame)));
    }
}

/// A client's requests go through its partition exactly if it has a ring and a partition, and the
/// partition's device is connected and has a ring.
pub proof fn law_requests_go_through_the_partition(server: &FossilServer, badge: usize)
    requires
        server@.partitions.contains_key(badge) ==> server@.partitions[badge].meta.parent
            <= usize::MAX,
    ensures
        ({
            let hw = server@.partitions[badge].meta.parent as usize;
            let known = server@.partitions.contains_key(badge)
                && server@.device_clients.contains_key(hw);
            let r = server.spec_sq_partition(badge);
            &&& r is Ok <==> server@.client_rings.contains(badge) && known
                && server@.device_clients[hw]
            &&& r is Ok ==> r->Ok_0 == server@.partitions[badge]
            &&& r == Err::<PartitionProxy, Error>(Error::NotFound)
                <==> server@.client_rings.contains(badge) && !known
            &&& r == Err::<PartitionProxy, Error>(Error::NotInitialized)
                <==> !server@.client_rings.contains(badge) || (known
                && !server@.device_clients[hw])
        }),
{
}

/// Messages are told apart by protocol and label.
pub proof fn law_messages_are_told_apart(proto: Protocol, msg_proto: usize, label: usize)
    requires
        proto.device != proto.block,
        proto.get_capacity != proto.setup_ring,
        proto.get_capacity != proto.notify_sq,
        proto.setup_ring != proto.notify_sq,
    ensures
        request_of(proto, msg_proto, label) == Some(Request::Update) <==> msg_proto == proto.device
            && label == proto.update,
        request_of(proto, msg_proto, label) == Some(Request::GetCapacity) <==> msg_proto
            == proto.block && label == proto.get_capacity,
        request_of(proto, msg_proto, label) == Some(Request::SetupRing) <==> msg_proto
            == proto.block && label == proto.setup_ring,
        request_of(proto, msg_proto, label) == Some(Request::NotifySq) <==> msg_proto
            == proto.block && label == proto.notify_sq,
{
}

/// Publishing stops at the first partition that cannot be published, with its error: those before
/// it are registered, and it and those after it are not. `k` is its number.
pub proof fn law_publishing_stops_at_a_failure(
    publish: PublishAnswers,
    hw_badge: u64,
    parts: Seq<(DescView, u64)>,
    before: ServerState,
    after: ServerState,
    e: Error,
) -> (k: int)
    requires
        before.next_badge + parts.len() <= usize::MAX,
        published(publish, hw_badge, parts, 0, before, after, Some(e)),
    ensures
        0 <= k < parts.len(),
        exists|desc: LogicDeviceDesc| #[trigger]
            publish(desc, (before.next_badge + k) as usize, Err::<(), Error>(e)) && desc.name@
                == parts[k].0.name,
        after.next_badge == before.next_badge + k + 1,
        forall|badge: usize|
            badge < before.next_badge || badge >= before.next_badge + k ==> (
            #[trigger] after.partitions.contains_key(badge) == before.partitions.contains_key(
                badge,
            )) && after.partitions[badge] == before.partitions[badge],
        forall|j: int|
            #![trigger parts[j]]
            0 <= j < k && parts[j].0.dev_type is Block ==> {
                let badge = (before.next_badge + j) as usize;
                &&& after.partitions.contains_key(badge)
                &&& after.partitions[badge].meta.parent == hw_badge
                &&& after.partitions[badge].meta.start_lba == parts[j].1
                &&& after.partitions[badge].meta.num_blocks == parts[j].0.dev_type->Block_0
                &&& after.partitions[badge].meta.block_size == 512
            },
{
    lemma_failure(publish, hw_badge, parts, 0, before, after, e)
}

proof fn lemma_failure(
    publish: PublishAnswers,
    hw_badge: u64,
    parts: Seq<(DescView, u64)>,
    i: int,
    before: ServerState,
    after: ServerState,
    e: Error,
) -> (k: int)
    requires
        0 <= i <= parts.len(),
        before.next_badge + parts.len() - i <= usize::MAX,
        published(publish, hw_badge, parts, i, before, after, Some(e)),
    ensures
        i <= k < parts.len(),
        exists|desc: LogicDeviceDesc| #[trigger]
            publish(desc, (before.next_badge + k - i) as usize, Err::<(), Error>(e)) && desc.name@
                == parts[k].0.name,
        after.next_badge == before.next_badge + k - i + 1,
        forall|badge: usize|
            badge < before.next_badge || badge >= before.next_badge + k - i ==> (
            #[trigger] after.partitions.contains_key(badge) == before.partitions.contains_key(
                badge,
            )) && after.partitions[badge] == before.partitions[badge],
        forall|j: int|
            #![trigger parts[j]]
            i <= j < k && parts[j].0.dev_type is Block ==> {
                let badge = (before.next_badge + j - i) as usize;
                &&& after.partitions.contains_key(badge)
                &&& after.partitions[badge].meta.parent == hw_badge
                &&& after.partitions[badge].meta.start_lba == parts[j].1
                &&& after.partitions[badge].meta.num_blocks == parts[j].0.dev_type->Block_0
                &&& after.partitions[badge].meta.block_size == 512
            },
    decreases parts.len() - i,
{
    let badge = before.next_badge;
    let next = before.with_next_badge().with_partition(badge, hw_badge, parts[i]);
    let (desc, out) = choose|desc: LogicDeviceDesc, out: Result<(), Error>| #[trigger]
        publish(desc, badge, out) && desc@ == (DescView {
            badge: Some(badge as u64),
            ..parts[i].0
        }) && match out {
            Err(x) => after == before.with_next_badge() && Some(e) == Some(x),
            Ok(_) => published(publish, hw_badge, parts, i + 1, next, after, Some(e)),
        };
    if out is Ok {
        let k = lemma_failure(publish, hw_badge, parts, i + 1, next, after, e);
        assert(next.next_badge == before.next_badge + 1);
        assert(after.partitions.contains_key(badge) == next.partitions.contains_key(badge));
        let at = (next.next_badge + k - (i + 1)) as usize;
        let last = choose|last: LogicDeviceDesc| #[trigger]
            publish(last, at, Err::<(), Error>(e)) && last.name@ == parts[k].0.name;
        assert(publish(last, (before.next_badge + k - i) as usize, Err::<(), Error>(e)));
        assert forall|other: usize|
            other < badge || other >= badge + k - i implies (
        #[trigger] after.partitions.contains_key(other) == before.partitions.contains_key(other))
            && after.partitions[other] == before.partitions[other] by {
            assert(other != badge);
            assert(after.partitions.contains_key(other) == next.partitions.contains_key(other));
        }
        k
    } else {
        assert(desc@.name == parts[i].0.name);
        assert(publish(desc, (before.next_badge + i - i) as usize, Err::<(), Error>(e)));
        i
    }
}

} // verus!
