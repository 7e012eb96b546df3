//! Probing devices: finding their partitions and registering them.
use super::coherence;
use super::names;
use super::proxy::{PartitionMetadata, PartitionProxy, PartitionView};
use super::reader;
use super::reader::{DeviceAnswers, Store};
use super::scan;
use super::{BlockDevice, FossilServer, ServerState, SpawnAnswers};
use crate::cap::Endpoint;
use crate::error::Error;
use crate::probe::fs::FileSystemType;
use crate::probe::part::PartitionRange;
use crate::text;
use vstd::prelude::*;

verus! {

/// A device that is probed.
#[verifier::ext_equal]
pub struct ProbedDevice {
    pub hw_id: usize,
    pub name: Seq<char>,
    pub endpoint: Endpoint,
    pub client: BlockDevice,
}

/// A server and the bytes that its cache holds.
#[verifier::ext_equal]
pub struct ServerStore {
    pub state: ServerState,
    pub arena: Seq<u8>,
}

impl ProbedDevice {
    /// The size of the device's blocks.
    pub open spec fn block_size(self) -> usize {
        self.client.block_size as usize
    }

    /// Partition number `index` of the device.
    pub open spec fn partition(
        self,
        index: nat,
        range: PartitionRange,
        fs_type: FileSystemType,
    ) -> PartitionView {
        PartitionView {
            meta: PartitionMetadata {
                parent: self.hw_id as u64,
                start_lba: range.start_lba as u64,
                num_blocks: range.num_blocks as u64,
                block_size: self.client.block_size,
            },
            hardware_ep: self.endpoint,
            name: names::spec_partition_name(self.name, index),
            fs_type,
            hardware_badge: 0,
        }
    }

    /// The partitions to register where `found` was found: without any, the whole device is one.
    pub open spec fn to_register(self, found: Seq<PartitionRange>) -> Seq<PartitionRange> {
        if found.len() == 0 {
            seq![
                PartitionRange { start_lba: 0, num_blocks: self.client.total_sectors as usize },
            ]
        } else {
            found
        }
    }
}

impl ServerStore {
    /// The cache and its bytes.
    pub open spec fn store(self) -> Store {
        Store { cache: self.state.cache, arena: self.arena }
    }

    /// The server with another cache.
    pub open spec fn with_store(self, store: Store) -> ServerStore {
        ServerStore {
            state: ServerState { cache: store.cache, ..self.state },
            arena: store.arena,
        }
    }

    /// The server with one more partition, under the next badge.
    pub open spec fn with_partition(self, partition: PartitionView) -> ServerStore {
        let badge = self.state.next_badge;
        ServerStore {
            state: ServerState {
                next_badge: badge.wrapping_add(1),
                partitions: self.state.partitions.insert(badge, partition),
                names: self.state.names.insert(partition.name, badge),
                ..self.state
            },
            ..self
        }
    }
}

impl ServerState {
    /// Whether what probing a partition does not touch is the same.
    pub open spec fn same_frame(self, other: ServerState) -> bool {
        &&& other.global_shm == self.global_shm
        &&& other.pending_devices == self.pending_devices
        &&& other.device_clients == self.device_clients
        &&& other.probed_hardware == self.probed_hardware
        &&& other.config == self.config
        &&& other.cache.block_size == self.cache.block_size
    }
}

/// The partition number `index` was looked at, registered, and given a driver if there is one.
#[verifier::opaque]
pub open spec fn partition_registered(
    dev: DeviceAnswers,
    spawn: SpawnAnswers,
    device: ProbedDevice,
    index: nat,
    range: PartitionRange,
    before: ServerStore,
    after: ServerStore,
) -> bool {
    exists|store: Store, fs_type: FileSystemType|
        {
            &&& #[trigger] scan::sniffed(
                dev,
                device.hw_id,
                device.block_size(),
                range.start_lba,
                before.store(),
                store,
                fs_type,
            )
            &&& exists|failed: Option<Error>| #[trigger]
                super::driver_ensured(
                    spawn,
                    before.state.next_badge,
                    fs_type,
                    before.with_store(store).with_partition(
                        device.partition(index, range, fs_type),
                    ).state,
                    after.state,
                    failed,
                )
            &&& after.arena == store.arena
        }
}

/// The partitions were registered, one after the other.
pub open spec fn partitions_registered(
    dev: DeviceAnswers,
    spawn: SpawnAnswers,
    device: ProbedDevice,
    ranges: Seq<PartitionRange>,
    before: ServerStore,
    after: ServerStore,
) -> bool
    decreases ranges.len(),
{
    if ranges.len() == 0 {
        after == before
    } else {
        exists|between: ServerStore| #[trigger]
            partition_registered(
                dev,
                spawn,
                device,
                (ranges.len() - 1) as nat,
                ranges.last(),
                between,
                after,
            ) && partitions_registered(dev, spawn, device, ranges.drop_last(), before, between)
    }
}

/// A device with first block `sector0` was searched, and what was found is registered.
pub open spec fn device_registered(
    dev: DeviceAnswers,
    spawn: SpawnAnswers,
    device: ProbedDevice,
    sector0: Seq<u8>,
    before: ServerStore,
    after: ServerStore,
) -> bool {
    exists|store: Store, found: Seq<PartitionRange>, registered: ServerStore|
        {
            &&& #[trigger] scan::scanned(
                dev,
                device.hw_id,
                device.block_size(),
                sector0,
                before.store(),
                store,
                found,
            )
            &&& #[trigger] partitions_registered(
                dev,
                spawn,
                device,
                device.to_register(found),
                before.with_store(store),
                registered,
            )
            &&& after.arena == registered.arena
            &&& after.state == (ServerState {
                device_clients: registered.state.device_clients.insert(
                    device.hw_id,
                    device.client,
                ),
                probed_hardware: registered.state.probed_hardware.insert(device.hw_id),
                ..registered.state
            })
        }
}

/// A device was probed. Without the global buffer nothing is done; a device whose first block
/// cannot be read is not registered.
pub open spec fn probed(
    dev: DeviceAnswers,
    spawn: SpawnAnswers,
    device: ProbedDevice,
    before: ServerStore,
    after: ServerStore,
    failed: Option<Error>,
) -> bool {
    if before.state.global_shm is None {
        after == before && failed == Some(Error::NotInitialized)
    } else {
        exists|store: Store, first: Result<Seq<u8>, Error>|
            {
                &&& #[trigger] reader::block_read(
                    dev,
                    device.hw_id,
                    device.block_size(),
                    0,
                    before.store(),
                    store,
                    first,
                )
                &&& match first {
                    Err(e) => after == before.with_store(store) && failed == Some(e),
                    Ok(sector0) => failed is None && device_registered(
                        dev,
                        spawn,
                        device,
                        sector0,
                        before.with_store(store),
                        after,
                    ),
                }
            }
    }
}

impl FossilServer {
    /// The device as the server is connected to it; `connected` where it was not before.
    pub open spec fn client_of(&self, hw_id: usize, connected: BlockDevice) -> BlockDevice {
        if self@.device_clients.contains_key(hw_id) {
            self@.device_clients[hw_id]
        } else {
            connected
        }
    }

    /// Whether the cache, with its bytes in `arena`, can serve a device with blocks of
    /// `block_size` bytes.
    pub fn can_serve(&self, arena: &[u8], block_size: u32) -> (r: bool)
        requires
            self.wf(),
        ensures
            r == (ServerStore { state: self@, arena: arena@ }).store().can_serve(
                block_size as usize,
            ),
    {
        self.buffer_cache.is_usable() && 0 < block_size && block_size as usize
            <= self.buffer_cache.get_block_size() && arena.len()
            == self.buffer_cache.get_total_size()
    }

    /// Reads the block `lba` of a device through the cache, or the first `len` bytes of it.
    pub fn read_block<D: Fn(usize, usize, usize) -> Result<Vec<u8>, Error>>(
        &mut self,
        arena: &mut [u8],
        dev: &D,
        client: &BlockDevice,
        hw_id: usize,
        lba: usize,
        len: usize,
    ) -> (r: Result<Vec<u8>, Error>)
        requires
            reader::reads_blocks(*dev),
            old(self).wf(),
            (ServerStore { state: old(self)@, arena: old(arena)@ }).store().can_serve(
                client.block_size as usize,
            ),
        ensures
            final(self).wf(),
            (ServerStore { state: final(self)@, arena: final(arena)@ }).store().can_serve(
                client.block_size as usize,
            ),
            final(self)@.cache.block_size == old(self)@.cache.block_size,
            exists|store: Store, out: Result<Seq<u8>, Error>|
                {
                    &&& #[trigger] reader::block_read(
                        reader::answers(*dev),
                        hw_id,
                        client.block_size as usize,
                        lba,
                        (ServerStore { state: old(self)@, arena: old(arena)@ }).store(),
                        store,
                        out,
                    )
                    &&& (ServerStore { state: final(self)@, arena: final(arena)@ }) == (
                    ServerStore { state: old(self)@, arena: old(arena)@ }).with_store(store)
                    &&& match out {
                        Ok(block) => block.len() == client.block_size && reader::seen(r) == Ok::<
                            Seq<u8>,
                            Error,
                        >(
                            block.take(
                                if len < client.block_size {
                                    len as int
                                } else {
                                    client.block_size as int
                                },
                            ),
                        ),
                        Err(e) => reader::seen(r) == Err::<Seq<u8>, Error>(e),
                    }
                },
    {
        let block_size: usize = client.block_size as usize;
        let r = reader::read_block(
            &mut self.buffer_cache,
            arena,
            dev,
            hw_id,
            block_size,
            lba,
            len,
        );
        proof {
            let before = ServerStore { state: old(self)@, arena: old(arena)@ };
            let after = ServerStore { state: self@, arena: arena@ };
            assert(after.state =~= before.with_store(after.store()).state);
        }
        r
    }

    fn register_partition<
        D: Fn(usize, usize, usize) -> Result<Vec<u8>, Error>,
        S: FnMut(String) -> Result<usize, Error>,
    >(
        &mut self,
        arena: &mut [u8],
        dev: &D,
        spawn: &mut S,
        hardware_id: usize,
        logical_name: &str,
        hardware_ep: Endpoint,
        client: &BlockDevice,
        index: usize,
        range: PartitionRange,
    )
        requires
            reader::reads_blocks(*dev),
            super::spawns(*old(spawn), old(self)@.config),
            old(self).wf(),
            (ServerStore { state: old(self)@, arena: old(arena)@ }).store().can_serve(
                client.block_size as usize,
            ),
        ensures
            final(self).wf(),
            *final(spawn) == *old(spawn),
            (ServerStore { state: final(self)@, arena: final(arena)@ }).store().can_serve(
                client.block_size as usize,
            ),
            old(self)@.same_frame(final(self)@),
            partition_registered(
                reader::answers(*dev),
                super::spawn_answers(*old(spawn)),
                ProbedDevice {
                    hw_id: hardware_id,
                    name: logical_name@,
                    endpoint: hardware_ep,
                    client: *client,
                },
                index as nat,
                range,
                ServerStore { state: old(self)@, arena: old(arena)@ },
                ServerStore { state: final(self)@, arena: final(arena)@ },
            ),
    {
        let ghost before = ServerStore { state: self@, arena: arena@ };
        let ghost device = ProbedDevice {
            hw_id: hardware_id,
            name: logical_name@,
            endpoint: hardware_ep,
            client: *client,
        };
        let badge: usize = self.next_partition_badge;
        self.next_partition_badge = badge.wrapping_add(1);
        let block_size: usize = client.block_size as usize;
        let fs_type = scan::sniff_fs(
            &mut self.buffer_cache,
            arena,
            dev,
            hardware_id,
            block_size,
            range.start_lba,
        );
        let ghost store = Store { cache: self.buffer_cache@, arena: arena@ };
        let meta = PartitionMetadata {
            parent: hardware_id as u64,
            start_lba: range.start_lba as u64,
            num_blocks: range.num_blocks as u64,
            block_size: client.block_size,
        };
        let name = names::partition_name(logical_name, index);
        let proxy = PartitionProxy::new(meta, hardware_ep, name.clone(), fs_type, 0);
        let ghost view = proxy@;
        self.partitions.insert(badge, proxy);
        self.name_to_badge.insert(name, badge);
        proof {
            let known = before.with_store(store).with_partition(
                device.partition(index as nat, range, fs_type),
            );
            assert(view == device.partition(index as nat, range, fs_type));
            assert(self@.partitions =~= known.state.partitions);
            assert(self@ =~= known.state);
            assert(scan::sniffed(
                reader::answers(*dev),
                device.hw_id,
                device.block_size(),
                range.start_lba,
                before.store(),
                store,
                fs_type,
            ));
        }
        let bound = match self.driver_to_start(badge, fs_type) {
            Err(e) => Err(e),
            Ok(None) => Ok(()),
            Ok(Some(binary)) => {
                let ghost arg = binary;
                assert(super::is_driver(self@.config, binary@));
                let out = spawn(binary);
                assert(super::spawn_answers(*old(spawn))(arg, out));
                self.note_driver(badge, out)
            },
        };
        proof {
            let known = before.with_store(store).with_partition(
                device.partition(index as nat, range, fs_type),
            );
            assert(super::driver_ensured(
                super::spawn_answers(*old(spawn)),
                before.state.next_badge,
                fs_type,
                known.state,
                self@,
                super::failure(bound),
            ));
            assert(self@.cache == store.cache);
            reveal(partition_registered);
        }
    }

    /// Probes a device: finds its partitions, or takes the whole device as one, and registers
    /// them under new badges. A partition whose driver cannot be started is registered all the
    /// same.
    pub fn probe<
        D: Fn(usize, usize, usize) -> Result<Vec<u8>, Error>,
        S: FnMut(String) -> Result<usize, Error>,
    >(
        &mut self,
        arena: &mut [u8],
        hardware_id: usize,
        logical_name: &str,
        hardware_ep: Endpoint,
        connected: BlockDevice,
        dev: &D,
        spawn: &mut S,
    ) -> (r: Result<(), Error>)
        requires
            reader::reads_blocks(*dev),
            super::spawns(*old(spawn), old(self)@.config),
            old(self).wf(),
            old(self)@.global_shm is Some ==> (ServerStore {
                state: old(self)@,
                arena: old(arena)@,
            }).store().can_serve(old(self).client_of(hardware_id, connected).block_size as usize),
        ensures
            final(self).wf(),
            *final(spawn) == *old(spawn),
            final(self)@.global_shm == old(self)@.global_shm,
            final(self)@.pending_devices == old(self)@.pending_devices,
            final(self)@.config == old(self)@.config,
            old(self)@.probed_hardware.subset_of(final(self)@.probed_hardware),
            final(self)@.cache.block_size == old(self)@.cache.block_size,
            old(self)@.global_shm is Some ==> (ServerStore {
                state: final(self)@,
                arena: final(arena)@,
            }).store().can_serve(old(self).client_of(hardware_id, connected).block_size as usize),
            final(self)@.device_clients == old(self)@.device_clients || final(self)@.device_clients
                == old(self)@.device_clients.insert(
                hardware_id,
                old(self).client_of(hardware_id, connected),
            ),
            probed(
                reader::answers(*dev),
                super::spawn_answers(*old(spawn)),
                ProbedDevice {
                    hw_id: hardware_id,
                    name: logical_name@,
                    endpoint: hardware_ep,
                    client: old(self).client_of(hardware_id, connected),
                },
                ServerStore { state: old(self)@, arena: old(arena)@ },
                ServerStore { state: final(self)@, arena: final(arena)@ },
                super::failure(r),
            ),
    {
        let ghost before = ServerStore { state: self@, arena: arena@ };
        if self.global_shm.is_none() {
            return Err(Error::NotInitialized);
        }
        let client: BlockDevice = match self.device_clients.get(&hardware_id) {
            Some(existing) => *existing,
            None => connected,
        };
        let ghost device = ProbedDevice {
            hw_id: hardware_id,
            name: logical_name@,
            endpoint: hardware_ep,
            client,
        };
        let block_size: usize = client.block_size as usize;
        let first = self.read_block(arena, dev, &client, hardware_id, 0, block_size);
        let ghost opened = ServerStore { state: self@, arena: arena@ };
        let first_block: Vec<u8> = match first {
            Ok(block) => block,
            Err(e) => {
                proof {
                    assert(reader::block_read(
                        reader::answers(*dev),
                        device.hw_id,
                        device.block_size(),
                        0,
                        before.store(),
                        opened.store(),
                        Err::<Seq<u8>, Error>(e),
                    ));
                }
                return Err(e);
            },
        };
        proof {
            assert forall|b: Seq<u8>| b.len() == block_size implies #[trigger] b.take(
                block_size as int,
            ) == b by {
                assert(b.take(block_size as int) =~= b);
            }
            assert(reader::block_read(
                reader::answers(*dev),
                device.hw_id,
                device.block_size(),
                0,
                before.store(),
                opened.store(),
                Ok::<Seq<u8>, Error>(first_block@),
            ));
            assert(opened == before.with_store(opened.store()));
        }
        let mut ranges: Vec<PartitionRange> = scan::scan_partitions(
            &mut self.buffer_cache,
            arena,
            dev,
            hardware_id,
            block_size,
            first_block.as_slice(),
        );
        let ghost found = ranges@;
        let ghost searched = ServerStore { state: self@, arena: arena@ };
        proof {
            assert(searched.state =~= opened.with_store(searched.store()).state);
            assert(scan::scanned(
                reader::answers(*dev),
                device.hw_id,
                device.block_size(),
                first_block@,
                opened.store(),
                searched.store(),
                found,
            ));
        }
        if ranges.len() == 0 {
            ranges.push(
                PartitionRange { start_lba: 0, num_blocks: client.total_sectors as usize },
            );
        }
        assert(ranges@ =~= device.to_register(found));
        let mut i: usize = 0;
        assert(ranges@.take(0) =~= Seq::<PartitionRange>::empty());
        while i < ranges.len()
            invariant
                i <= ranges@.len(),
                reader::reads_blocks(*dev),
                *spawn == *old(spawn),
                super::spawns(*spawn, before.state.config),
                self.wf(),
                (ServerStore { state: self@, arena: arena@ }).store().can_serve(
                    client.block_size as usize,
                ),
                device == (ProbedDevice {
                    hw_id: hardware_id,
                    name: logical_name@,
                    endpoint: hardware_ep,
                    client,
                }),
                before.state.same_frame(self@),
                partitions_registered(
                    reader::answers(*dev),
                    super::spawn_answers(*old(spawn)),
                    device,
                    ranges@.take(i as int),
                    searched,
                    ServerStore { state: self@, arena: arena@ },
                ),
            decreases ranges@.len() - i,
        {
            let ghost now = ServerStore { state: self@, arena: arena@ };
            self.register_partition(
                arena,
                dev,
                spawn,
                hardware_id,
                logical_name,
                hardware_ep,
                &client,
                i,
                ranges[i],
            );
            proof {
                let done = ranges@.take(i + 1);
                assert(done.drop_last() =~= ranges@.take(i as int));
                assert(done.last() == ranges@[i as int]);
                assert(partition_registered(
                    reader::answers(*dev),
                    super::spawn_answers(*old(spawn)),
                    device,
                    (done.len() - 1) as nat,
                    done.last(),
                    now,
                    ServerStore { state: self@, arena: arena@ },
                ));
            }
            i = i + 1;
        }
        assert(ranges@.take(i as int) =~= ranges@);
        let ghost registered = ServerStore { state: self@, arena: arena@ };
        self.device_clients.insert(hardware_id, client);
        self.probed_hardware.insert(hardware_id);
        proof {
            let after = ServerStore { state: self@, arena: arena@ };
            assert(partitions_registered(
                reader::answers(*dev),
                super::spawn_answers(*old(spawn)),
                device,
                device.to_register(found),
                opened.with_store(searched.store()),
                registered,
            ));
            assert(after.state =~= (ServerState {
                device_clients: registered.state.device_clients.insert(
                    device.hw_id,
                    device.client,
                ),
                probed_hardware: registered.state.probed_hardware.insert(device.hw_id),
                ..registered.state
            }));
            assert(device_registered(
                reader::answers(*dev),
                super::spawn_answers(*old(spawn)),
                device,
                first_block@,
                opened,
                after,
            ));
        }
        Ok(())
    }
}

/// The steps of registering a partition.
proof fn open_partition_registered(
    dev: DeviceAnswers,
    spawn: SpawnAnswers,
    device: ProbedDevice,
    index: nat,
    range: PartitionRange,
    before: ServerStore,
    after: ServerStore,
) -> (w: (Store, FileSystemType, Option<Error>))
    requires
        partition_registered(dev, spawn, device, index, range, before, after),
    ensures
        scan::sniffed(
            dev,
            device.hw_id,
            device.block_size(),
            range.start_lba,
            before.store(),
            w.0,
            w.1,
        ),
        super::driver_ensured(
            spawn,
            before.state.next_badge,
            w.1,
            before.with_store(w.0).with_partition(device.partition(index, range, w.1)).state,
            after.state,
            w.2,
        ),
        after.arena == w.0.arena,
        after.state.cache == w.0.cache,
        after.store() == w.0,
        after.state.partitions == before.state.partitions.insert(
            before.state.next_badge,
            device.partition(index, range, w.1),
        ),
        after.state.names == before.state.names.insert(
            names::spec_partition_name(device.name, index),
            before.state.next_badge,
        ),
        after.state.next_badge == before.state.next_badge.wrapping_add(1),
        after.state.inflight == before.state.inflight,
        after.state.device_clients == before.state.device_clients,
        after.state.probed_hardware == before.state.probed_hardware,
        after.state.global_shm == before.state.global_shm,
        after.state.fs_endpoints == before.state.fs_endpoints,
        after.state.client_rings == before.state.client_rings,
        after.state.client_shms == before.state.client_shms,
        after.state.pending_mounts == before.state.pending_mounts,
        after.state.pending_devices == before.state.pending_devices,
{
    reveal(partition_registered);
    let (store, fs_type) = choose|store: Store, fs_type: FileSystemType|
        {
            &&& #[trigger] scan::sniffed(
                dev,
                device.hw_id,
                device.block_size(),
                range.start_lba,
                before.store(),
                store,
                fs_type,
            )
            &&& exists|failed: Option<Error>| #[trigger]
                super::driver_ensured(
                    spawn,
                    before.state.next_badge,
                    fs_type,
                    before.with_store(store).with_partition(
                        device.partition(index, range, fs_type),
                    ).state,
                    after.state,
                    failed,
                )
            &&& after.arena == store.arena
        };
    let failed = choose|failed: Option<Error>| #[trigger]
        super::driver_ensured(
            spawn,
            before.state.next_badge,
            fs_type,
            before.with_store(store).with_partition(
                device.partition(index, range, fs_type),
            ).state,
            after.state,
            failed,
        );
    (store, fs_type, failed)
}

/// Whether partition number `i` of the ranges is known under its badge and its name, where the
/// first has the badge `first`.
pub open spec fn is_registered(
    device: ProbedDevice,
    ranges: Seq<PartitionRange>,
    first: usize,
    state: ServerState,
    i: int,
) -> bool {
    let badge = (first + i) as usize;
    let name = names::spec_partition_name(device.name, i as nat);
    &&& state.partitions.contains_key(badge)
    &&& state.partitions[badge] == device.partition(
        i as nat,
        ranges[i],
        state.partitions[badge].fs_type,
    )
    &&& state.names.contains_key(name)
    &&& state.names[name] == badge
}

/// Whether the partition with a badge, or that there is none, is as it was.
pub open spec fn is_untouched(before: ServerState, after: ServerState, badge: usize) -> bool {
    &&& after.partitions.contains_key(badge) == before.partitions.contains_key(badge)
    &&& after.partitions[badge] == before.partitions[badge]
}

/// Registering gives every partition a badge of its own, counting up, under which and under whose
/// name it is found afterwards; and it touches no other partition.
pub proof fn law_partitions_get_new_badges(
    dev: DeviceAnswers,
    spawn: SpawnAnswers,
    device: ProbedDevice,
    ranges: Seq<PartitionRange>,
    before: ServerStore,
    after: ServerStore,
)
    requires
        before.state.next_badge + ranges.len() <= usize::MAX,
        partitions_registered(dev, spawn, device, ranges, before, after),
    ensures
        after.state.next_badge == before.state.next_badge + ranges.len(),
        forall|i: int|
            0 <= i < ranges.len() ==> #[trigger] is_registered(
                device,
                ranges,
                before.state.next_badge,
                after.state,
                i,
            ),
        forall|badge: usize|
            !(before.state.next_badge <= badge < after.state.next_badge)
                ==> #[trigger] is_untouched(before.state, after.state, badge),
    decreases ranges.len(),
{
    if ranges.len() > 0 {
        let n = ranges.len() - 1;
        let fewer = ranges.drop_last();
        let between = choose|between: ServerStore| #[trigger]
            partition_registered(dev, spawn, device, n as nat, ranges.last(), between, after)
                && partitions_registered(dev, spawn, device, fewer, before, between);
        law_partitions_get_new_badges(dev, spawn, device, fewer, before, between);
        open_partition_registered(dev, spawn, device, n as nat, ranges.last(), between, after);
        let first = before.state.next_badge;
        assert forall|i: int| 0 <= i < ranges.len() implies #[trigger] is_registered(
            device,
            ranges,
            first,
            after.state,
            i,
        ) by {
            if i < n {
                assert(is_registered(device, fewer, first, between.state, i));
                names::law_partition_names_differ(device.name, i as nat, n as nat);
            }
        }
        assert forall|badge: usize| !(first <= badge < after.state.next_badge) implies #[trigger]
            is_untouched(before.state, after.state, badge) by {
            assert(is_untouched(before.state, between.state, badge));
        }
    }
}

/// Registering partitions keeps the bookkeeping consistent and gives no number twice.
pub proof fn law_registering_keeps_bookkeeping(
    dev: DeviceAnswers,
    spawn: SpawnAnswers,
    device: ProbedDevice,
    ranges: Seq<PartitionRange>,
    before: ServerStore,
    after: ServerStore,
)
    requires
        before.state.consistent(),
        before.state.numbered(),
        before.state.next_badge + ranges.len() <= super::HARDWARE_REQUEST,
        partitions_registered(dev, spawn, device, ranges, before, after),
    ensures
        after.state.consistent(),
        after.state.numbered(),
        before.state.driver_pids.submap_of(after.state.driver_pids),
        after.state.next_badge == before.state.next_badge + ranges.len(),
    decreases ranges.len(),
{
    if ranges.len() > 0 {
        let n = ranges.len() - 1;
        let fewer = ranges.drop_last();
        let between = choose|between: ServerStore| #[trigger]
            partition_registered(dev, spawn, device, n as nat, ranges.last(), between, after)
                && partitions_registered(dev, spawn, device, fewer, before, between);
        law_registering_keeps_bookkeeping(dev, spawn, device, fewer, before, between);
        let (store, fs_type, failed) = open_partition_registered(
            dev,
            spawn,
            device,
            n as nat,
            ranges.last(),
            between,
            after,
        );
        let known = between.with_store(store).with_partition(
            device.partition(n as nat, ranges.last(), fs_type),
        ).state;
        assert(known.consistent());
        super::law_drivers_keep_bookkeeping(
            spawn,
            between.state.next_badge,
            fs_type,
            known,
            after.state,
            failed,
        );
    }
}

/// On a device that never fails and does not change, every partition is registered with the file
/// system that it holds.
pub proof fn law_partitions_get_their_file_systems(
    dev: DeviceAnswers,
    spawn: SpawnAnswers,
    image: spec_fn(usize) -> Seq<u8>,
    device: ProbedDevice,
    ranges: Seq<PartitionRange>,
    before: ServerStore,
    after: ServerStore,
)
    requires
        coherence::mirrors(dev, image, device.hw_id, device.block_size(), before.store()),
        before.state.next_badge + ranges.len() <= usize::MAX,
        partitions_registered(dev, spawn, device, ranges, before, after),
    ensures
        coherence::mirrors(dev, image, device.hw_id, device.block_size(), after.store()),
        after.state.next_badge == before.state.next_badge + ranges.len(),
        forall|badge: usize|
            before.state.next_badge <= badge < after.state.next_badge ==> (
            #[trigger] after.state.partitions[badge]).fs_type == scan::image_fs(
                image,
                device.block_size(),
                ranges[badge - before.state.next_badge].start_lba,
            ),
    decreases ranges.len(),
{
    if ranges.len() > 0 {
        let n = ranges.len() - 1;
        let fewer = ranges.drop_last();
        let between = choose|between: ServerStore| #[trigger]
            partition_registered(dev, spawn, device, n as nat, ranges.last(), between, after)
                && partitions_registered(dev, spawn, device, fewer, before, between);
        law_partitions_get_their_file_systems(dev, spawn, image, device, fewer, before, between);
        let (store, fs_type, failed) = open_partition_registered(
            dev,
            spawn,
            device,
            n as nat,
            ranges.last(),
            between,
            after,
        );
        scan::law_sniff_finds_what_is_there(
            dev,
            image,
            device.hw_id,
            device.block_size(),
            ranges.last().start_lba,
            between.store(),
            store,
            fs_type,
        );
        assert forall|badge: usize|
            before.state.next_badge <= badge < after.state.next_badge implies (
        #[trigger] after.state.partitions[badge]).fs_type == scan::image_fs(
            image,
            device.block_size(),
            ranges[badge - before.state.next_badge].start_lba,
        ) by {
            if badge < between.state.next_badge {
                assert(after.state.partitions[badge] == between.state.partitions[badge]);
                assert(fewer[badge - before.state.next_badge] == ranges[badge
                    - before.state.next_badge]);
            }
        }
    }
}

/// Probing a device that never fails and does not change succeeds, and registers exactly the
/// partitions that the device holds (the whole device, if it holds none), each with the file
/// system that it holds; what is cached of the device stays as the device gave it.
pub proof fn law_probe_finds_what_is_there(
    dev: DeviceAnswers,
    spawn: SpawnAnswers,
    image: spec_fn(usize) -> Seq<u8>,
    device: ProbedDevice,
    before: ServerStore,
    after: ServerStore,
    failed: Option<Error>,
)
    requires
        before.state.global_shm is Some,
        coherence::mirrors(dev, image, device.hw_id, device.block_size(), before.store()),
        before.state.next_badge + device.to_register(
            scan::image_parts(image, device.block_size()),
        ).len() <= usize::MAX,
        probed(dev, spawn, device, before, after, failed),
    ensures
        failed is None,
        after.state.probed_hardware.contains(device.hw_id),
        coherence::mirrors(dev, image, device.hw_id, device.block_size(), after.store()),
        ({
            let ranges = device.to_register(scan::image_parts(image, device.block_size()));
            let first = before.state.next_badge;
            &&& after.state.next_badge == first + ranges.len()
            &&& forall|i: int|
                0 <= i < ranges.len() ==> #[trigger] is_registered(
                    device,
                    ranges,
                    first,
                    after.state,
                    i,
                ) && after.state.partitions[(first + i) as usize].fs_type == scan::image_fs(
                    image,
                    device.block_size(),
                    ranges[i].start_lba,
                )
        }),
{
    let (opened, first) = choose|store: Store, first: Result<Seq<u8>, Error>|
        {
            &&& #[trigger] reader::block_read(
                dev,
                device.hw_id,
                device.block_size(),
                0,
                before.store(),
                store,
                first,
            )
            &&& match first {
                Err(e) => after == before.with_store(store) && failed == Some(e),
                Ok(sector0) => failed is None && device_registered(
                    dev,
                    spawn,
                    device,
                    sector0,
                    before.with_store(store),
                    after,
                ),
            }
        };
    assert(first == Ok::<Seq<u8>, Error>(image(0)) && coherence::mirrors(
        dev,
        image,
        device.hw_id,
        device.block_size(),
        opened,
    )) by {
        reveal(coherence::mirrors);
        coherence::law_block_reads_the_image(
            dev,
            image,
            device.hw_id,
            device.block_size(),
            0,
            before.store(),
            opened,
            first,
        );
    }
    let sector0 = first->Ok_0;
    let start = before.with_store(opened);
    assert(start.store() == opened);
    let (store, found, registered) = choose|
        store: Store,
        found: Seq<PartitionRange>,
        registered: ServerStore,
    |
        {
            &&& #[trigger] scan::scanned(
                dev,
                device.hw_id,
                device.block_size(),
                sector0,
                start.store(),
                store,
                found,
            )
            &&& #[trigger] partitions_registered(
                dev,
                spawn,
                device,
                device.to_register(found),
                start.with_store(store),
                registered,
            )
            &&& after.arena == registered.arena
            &&& after.state == (ServerState {
                device_clients: registered.state.device_clients.insert(
                    device.hw_id,
                    device.client,
                ),
                probed_hardware: registered.state.probed_hardware.insert(device.hw_id),
                ..registered.state
            })
        };
    scan::law_scan_finds_what_is_there(
        dev,
        image,
        device.hw_id,
        device.block_size(),
        opened,
        store,
        found,
    );
    let ranges = device.to_register(found);
    let searched = start.with_store(store);
    assert(searched.store() == store);
    law_partitions_get_new_badges(dev, spawn, device, ranges, searched, registered);
    law_partitions_get_their_file_systems(
        dev,
        spawn,
        image,
        device,
        ranges,
        searched,
        registered,
    );
    assert(after.store() == registered.store());
    let number = before.state.next_badge;
    assert forall|i: int| 0 <= i < ranges.len() implies #[trigger] is_registered(
        device,
        ranges,
        number,
        after.state,
        i,
    ) && after.state.partitions[(number + i) as usize].fs_type == scan::image_fs(
        image,
        device.block_size(),
        ranges[i].start_lba,
    ) by {
        assert(is_registered(device, ranges, number, registered.state, i));
        assert(registered.state.partitions[(number + i) as usize].fs_type == scan::image_fs(
            image,
            device.block_size(),
            ranges[i].start_lba,
        ));
    }
}

/// A probe that fails registers nothing: at most the cache has changed.
pub proof fn law_failed_probe_registers_nothing(
    dev: DeviceAnswers,
    spawn: SpawnAnswers,
    device: ProbedDevice,
    before: ServerStore,
    after: ServerStore,
    failed: Option<Error>,
)
    requires
        probed(dev, spawn, device, before, after, failed),
        failed is Some,
    ensures
        after.state == (ServerState { cache: after.state.cache, ..before.state }),
{
}

/// The most partitions that a device can turn out to have: a master boot record lists four, and an
/// entry of a GUID partition table needs 128 bytes of memory.
pub open spec fn most_partitions() -> int {
    isize::MAX / 128 + 4
}

/// Probing keeps the bookkeeping, as long as there are numbers for all partitions that a device can
/// turn out to have.
pub proof fn law_probe_keeps_bookkeeping(
    dev: DeviceAnswers,
    spawn: SpawnAnswers,
    device: ProbedDevice,
    before: ServerStore,
    after: ServerStore,
    failed: Option<Error>,
)
    requires
        device.block_size() > 0,
        before.state.consistent(),
        before.state.numbered(),
        before.state.next_badge + most_partitions() <= super::HARDWARE_REQUEST,
        probed(dev, spawn, device, before, after, failed),
    ensures
        after.state.consistent(),
        after.state.numbered(),
        before.state.driver_pids.submap_of(after.state.driver_pids),
        after.state.next_badge <= before.state.next_badge + most_partitions(),
{
    if before.state.global_shm is Some && failed is None {
        let (opened, first) = choose|store: Store, first: Result<Seq<u8>, Error>|
            {
                &&& #[trigger] reader::block_read(
                    dev,
                    device.hw_id,
                    device.block_size(),
                    0,
                    before.store(),
                    store,
                    first,
                )
                &&& match first {
                    Err(e) => after == before.with_store(store) && failed == Some(e),
                    Ok(sector0) => failed is None && device_registered(
                        dev,
                        spawn,
                        device,
                        sector0,
                        before.with_store(store),
                        after,
                    ),
                }
            };
        let sector0 = first->Ok_0;
        let start = before.with_store(opened);
        let (store, found, registered) = choose|
            store: Store,
            found: Seq<PartitionRange>,
            registered: ServerStore,
        |
            {
                &&& #[trigger] scan::scanned(
                    dev,
                    device.hw_id,
                    device.block_size(),
                    sector0,
                    start.store(),
                    store,
                    found,
                )
                &&& #[trigger] partitions_registered(
                    dev,
                    spawn,
                    device,
                    device.to_register(found),
                    start.with_store(store),
                    registered,
                )
                &&& after.arena == registered.arena
                &&& after.state == (ServerState {
                    device_clients: registered.state.device_clients.insert(
                        device.hw_id,
                        device.client,
                    ),
                    probed_hardware: registered.state.probed_hardware.insert(device.hw_id),
                    ..registered.state
                })
            };
        scan::lemma_scan_bounded(
            dev,
            device.hw_id,
            device.block_size(),
            sector0,
            start.store(),
            store,
            found,
        );
        law_registering_keeps_bookkeeping(
            dev,
            spawn,
            device,
            device.to_register(found),
            start.with_store(store),
            registered,
        );
    }
}

/// Registering partitions connects to no device.
proof fn lemma_registering_connects_nothing(
    dev: DeviceAnswers,
    spawn: SpawnAnswers,
    device: ProbedDevice,
    ranges: Seq<PartitionRange>,
    before: ServerStore,
    after: ServerStore,
)
    requires
        partitions_registered(dev, spawn, device, ranges, before, after),
    ensures
        after.state.device_clients == before.state.device_clients,
    decreases ranges.len(),
{
    if ranges.len() > 0 {
        let n = ranges.len() - 1;
        let fewer = ranges.drop_last();
        let between = choose|between: ServerStore| #[trigger]
            partition_registered(dev, spawn, device, n as nat, ranges.last(), between, after)
                && partitions_registered(dev, spawn, device, fewer, before, between);
        lemma_registering_connects_nothing(dev, spawn, device, fewer, before, between);
        open_partition_registered(dev, spawn, device, n as nat, ranges.last(), between, after);
    }
}

/// Probing connects to the probed device, or to none.
pub proof fn lemma_probe_connects(
    dev: DeviceAnswers,
    spawn: SpawnAnswers,
    device: ProbedDevice,
    before: ServerStore,
    after: ServerStore,
    failed: Option<Error>,
)
    requires
        probed(dev, spawn, device, before, after, failed),
    ensures
        after.state.device_clients == (if failed is None {
            before.state.device_clients.insert(device.hw_id, device.client)
        } else {
            before.state.device_clients
        }),
{
    if failed is None {
        let (opened, first) = choose|store: Store, first: Result<Seq<u8>, Error>|
            {
                &&& #[trigger] reader::block_read(
                    dev,
                    device.hw_id,
                    device.block_size(),
                    0,
                    before.store(),
                    store,
                    first,
                )
                &&& match first {
                    Err(e) => after == before.with_store(store) && failed == Some(e),
                    Ok(sector0) => failed is None && device_registered(
                        dev,
                        spawn,
                        device,
                        sector0,
                        before.with_store(store),
                        after,
                    ),
                }
            };
        let start = before.with_store(opened);
        let (store, found, registered) = choose|
            store: Store,
            found: Seq<PartitionRange>,
            registered: ServerStore,
        |
            {
                &&& #[trigger] scan::scanned(
                    dev,
                    device.hw_id,
                    device.block_size(),
                    first->Ok_0,
                    start.store(),
                    store,
                    found,
                )
                &&& #[trigger] partitions_registered(
                    dev,
                    spawn,
                    device,
                    device.to_register(found),
                    start.with_store(store),
                    registered,
                )
                &&& after.arena == registered.arena
                &&& after.state == (ServerState {
                    device_clients: registered.state.device_clients.insert(
                        device.hw_id,
                        device.client,
                    ),
                    probed_hardware: registered.state.probed_hardware.insert(device.hw_id),
                    ..registered.state
                })
            };
        lemma_registering_connects_nothing(
            dev,
            spawn,
            device,
            device.to_register(found),
            start.with_store(store),
            registered,
        );
    }
}

/// After a probe that succeeds, every partition that it registered lies on the probed device, has
/// the size of the device's blocks, starts and ends where the table of the device says (or is the
/// whole device, where there is none), and is found under the name of the device, a `p` and its
/// number in the table. `w` are the first block of the device, the store after it was read, the
/// store after the device was searched, and the partitions that were found.
pub proof fn law_registered_partitions_are_those_of_the_device(
    dev: DeviceAnswers,
    spawn: SpawnAnswers,
    device: ProbedDevice,
    before: ServerStore,
    after: ServerStore,
) -> (w: (Seq<u8>, Store, Store, Seq<PartitionRange>))
    requires
        device.client.block_size > 0,
        2 * before.state.next_badge <= usize::MAX,
        probed(dev, spawn, device, before, after, None),
    ensures
        reader::block_read(
            dev,
            device.hw_id,
            device.client.block_size as usize,
            0,
            before.store(),
            w.1,
            Ok::<Seq<u8>, Error>(w.0),
        ),
        scan::scanned(
            dev,
            device.hw_id,
            device.client.block_size as usize,
            w.0,
            w.1,
            w.2,
            w.3,
        ),
        w.3.len() == 0 ==> after.state.next_badge == before.state.next_badge + 1,
        w.3.len() > 0 ==> after.state.next_badge == before.state.next_badge + w.3.len(),
        forall|badge: usize|
            #![trigger after.state.partitions[badge]]
            #![trigger after.state.partitions.contains_key(badge)]
            before.state.next_badge <= badge < after.state.next_badge ==> {
                let p = after.state.partitions[badge];
                let i = badge - before.state.next_badge;
                &&& after.state.partitions.contains_key(badge)
                &&& p.meta.parent == device.hw_id
                &&& p.meta.block_size == device.client.block_size
                &&& w.3.len() > 0 ==> p.meta.start_lba == w.3[i].start_lba
                &&& w.3.len() > 0 ==> p.meta.num_blocks == w.3[i].num_blocks
                &&& w.3.len() == 0 ==> p.meta.start_lba == 0
                &&& w.3.len() == 0 && device.client.total_sectors <= usize::MAX
                    ==> p.meta.num_blocks == device.client.total_sectors
                &&& p.hardware_ep == device.endpoint
                &&& p.hardware_badge == 0
                &&& p.name.take(device.name.len() as int) == device.name
                &&& p.name[device.name.len() as int] == 'p'
                &&& text::number_of(p.name.skip(device.name.len() as int + 1)) == i
                &&& after.state.names.contains_key(p.name)
                &&& after.state.names[p.name] == badge
            },
        forall|badge: usize|
            #![trigger after.state.partitions[badge]]
            #![trigger after.state.partitions.contains_key(badge)]
            !(before.state.next_badge <= badge < after.state.next_badge) ==> {
                &&& after.state.partitions.contains_key(badge)
                    == before.state.partitions.contains_key(badge)
                &&& after.state.partitions[badge] == before.state.partitions[badge]
            },
        after.state.probed_hardware.contains(device.hw_id),
        after.state.device_clients.contains_key(device.hw_id),
        after.state.device_clients[device.hw_id].block_size == device.client.block_size,
        after.state.device_clients[device.hw_id].total_sectors == device.client.total_sectors,
        after.state.device_clients[device.hw_id].has_ring == device.client.has_ring,
{
    let (opened, first) = choose|store: Store, first: Result<Seq<u8>, Error>|
        {
            &&& #[trigger] reader::block_read(
                dev,
                device.hw_id,
                device.block_size(),
                0,
                before.store(),
                store,
                first,
            )
            &&& match first {
                Err(e) => after == before.with_store(store) && None::<Error> == Some(e),
                Ok(sector0) => device_registered(
                    dev,
                    spawn,
                    device,
                    sector0,
                    before.with_store(store),
                    after,
                ),
            }
        };
    let sector0 = first->Ok_0;
    let start = before.with_store(opened);
    assert(start.store() == opened);
    let (store, found, registered) = choose|
        store: Store,
        found: Seq<PartitionRange>,
        registered: ServerStore,
    |
        {
            &&& #[trigger] scan::scanned(
                dev,
                device.hw_id,
                device.block_size(),
                sector0,
                start.store(),
                store,
                found,
            )
            &&& #[trigger] partitions_registered(
                dev,
                spawn,
                device,
                device.to_register(found),
                start.with_store(store),
                registered,
            )
            &&& after.arena == registered.arena
            &&& after.state == (ServerState {
                device_clients: registered.state.device_clients.insert(
                    device.hw_id,
                    device.client,
                ),
                probed_hardware: registered.state.probed_hardware.insert(device.hw_id),
                ..registered.state
            })
        };
    scan::lemma_scan_bounded(
        dev,
        device.hw_id,
        device.block_size(),
        sector0,
        opened,
        store,
        found,
    );
    let ranges = device.to_register(found);
    let number = before.state.next_badge;
    law_partitions_get_new_badges(
        dev,
        spawn,
        device,
        ranges,
        start.with_store(store),
        registered,
    );
    assert forall|badge: usize|
        #![trigger after.state.partitions[badge]]
        #![trigger after.state.partitions.contains_key(badge)]
        number <= badge < after.state.next_badge implies {
        let p = after.state.partitions[badge];
        let i = badge - number;
        &&& after.state.partitions.contains_key(badge)
        &&& p.meta.parent == device.hw_id
        &&& p.meta.block_size == device.client.block_size
        &&& found.len() > 0 ==> p.meta.start_lba == found[i].start_lba
        &&& found.len() > 0 ==> p.meta.num_blocks == found[i].num_blocks
        &&& found.len() == 0 ==> p.meta.start_lba == 0
        &&& found.len() == 0 && device.client.total_sectors <= usize::MAX ==> p.meta.num_blocks
            == device.client.total_sectors
        &&& p.hardware_ep == device.endpoint
        &&& p.hardware_badge == 0
        &&& p.name.take(device.name.len() as int) == device.name
        &&& p.name[device.name.len() as int] == 'p'
        &&& text::number_of(p.name.skip(device.name.len() as int + 1)) == i
        &&& after.state.names.contains_key(p.name)
        &&& after.state.names[p.name] == badge
    } by {
        let i = badge - number;
        assert(is_registered(device, ranges, number, registered.state, i));
        names::law_partition_name_tells_device_and_number(device.name, i as nat);
    }
    assert forall|badge: usize|
        #![trigger after.state.partitions[badge]]
        #![trigger after.state.partitions.contains_key(badge)]
        !(number <= badge < after.state.next_badge) implies {
        &&& after.state.partitions.contains_key(badge) == before.state.partitions.contains_key(
            badge,
        )
        &&& after.state.partitions[badge] == before.state.partitions[badge]
    } by {
        assert(is_untouched(start.with_store(store).state, registered.state, badge));
    }
    (sector0, opened, store, found)
}

/// A device that the server is connected to is not connected again: it is probed as it is known.
pub proof fn law_known_devices_stay_connected(
    server: &FossilServer,
    hw_id: usize,
    connected: BlockDevice,
)
    ensures
        server@.device_clients.contains_key(hw_id) ==> server.client_of(hw_id, connected)
            == server@.device_clients[hw_id],
        !server@.device_clients.contains_key(hw_id) ==> server.client_of(hw_id, connected)
            == connected,
{
}

/// Without the global buffer a probe fails and does nothing; with it, it fails exactly with the
/// error of reading the first block of the device.
pub proof fn law_probe_fails_with_the_first_block(
    dev: DeviceAnswers,
    spawn: SpawnAnswers,
    device: ProbedDevice,
    before: ServerStore,
    after: ServerStore,
    failed: Option<Error>,
)
    requires
        probed(dev, spawn, device, before, after, failed),
    ensures
        before.state.global_shm is None ==> failed == Some(Error::NotInitialized) && after
            == before,
        before.state.global_shm is Some && failed is Some ==> reader::block_read(
            dev,
            device.hw_id,
            device.client.block_size as usize,
            0,
            before.store(),
            after.store(),
            Err::<Seq<u8>, Error>(failed->0),
        ),
{
    if before.state.global_shm is Some && failed is Some {
        let (store, first) = choose|store: Store, first: Result<Seq<u8>, Error>|
            {
                &&& #[trigger] reader::block_read(
                    dev,
                    device.hw_id,
                    device.block_size(),
                    0,
                    before.store(),
                    store,
                    first,
                )
                &&& match first {
                    Err(e) => after == before.with_store(store) && failed == Some(e),
                    Ok(sector0) => failed is None && device_registered(
                        dev,
                        spawn,
                        device,
                        sector0,
                        before.with_store(store),
                        after,
                    ),
                }
            };
        assert(after.store() == store);
    }
}

/// After a probe that succeeds, the client of a partition that it registered is told the size of
/// the device's blocks.
pub proof fn law_clients_are_told_the_block_size_of_the_device(
    dev: DeviceAnswers,
    spawn: SpawnAnswers,
    device: ProbedDevice,
    before: ServerStore,
    after: ServerStore,
    badge: usize,
)
    requires
        device.client.block_size > 0,
        2 * before.state.next_badge <= usize::MAX,
        probed(dev, spawn, device, before, after, None),
        before.state.next_badge <= badge < after.state.next_badge,
    ensures
        super::server::volume_info(after.state, badge) is Ok,
        super::server::volume_info(after.state, badge)->Ok_0.block_size
            == device.client.block_size,
{
    law_registered_partitions_are_those_of_the_device(dev, spawn, device, before, after);
    assert(after.state.partitions[badge].meta.block_size == device.client.block_size);
}

} // verus!
