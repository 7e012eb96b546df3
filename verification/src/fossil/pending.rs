//! The devices that wait to be probed.
use super::probing;
use super::probing::{ProbedDevice, ServerStore};
use super::reader;
use super::reader::DeviceAnswers;
use super::{BlockDevice, FossilServer, ServerState, SpawnAnswers};
use crate::cap::Endpoint;
use crate::error::Error;
use crate::text;
use std::collections::VecDeque;
use vstd::prelude::*;

verus! {

/// A queue after names were offered to it: those that it does not hold yet are put at its end.
pub open spec fn enqueued(queue: Seq<Seq<char>>, names: Seq<Seq<char>>) -> Seq<Seq<char>>
    decreases names.len(),
{
    if names.len() == 0 {
        queue
    } else {
        let before = enqueued(queue, names.drop_last());
        if before.contains(names.last()) {
            before
        } else {
            before.push(names.last())
        }
    }
}

/// The devices were asked for, and those that were named wait to be probed.
pub open spec fn synced<Q: FnOnce() -> Result<Vec<String>, Error>>(
    query: Q,
    before: ServerState,
    after: ServerState,
    failed: Option<Error>,
) -> bool {
    exists|out: Result<Vec<String>, Error>| #[trigger]
        call_ensures(query, (), out) && match out {
            Err(e) => after == before && failed == Some(e),
            Ok(names) => failed is None && after == (ServerState {
                pending_devices: enqueued(before.pending_devices, text::texts(names@)),
                ..before
            }),
        }
}

fn queue_contains(queue: &VecDeque<String>, s: &String) -> (r: bool)
    ensures
        r == text::texts(queue@).contains(s@),
{
    let mut i: usize = 0;
    while i < queue.len()
        invariant
            i <= queue@.len(),
            forall|j: int| 0 <= j < i ==> (#[trigger] text::texts(queue@)[j]) != s@,
        decreases queue@.len() - i,
    {
        if queue[i] == *s {
            assert(text::texts(queue@)[i as int] == s@);
            return true;
        }
        i = i + 1;
    }
    false
}

impl FossilServer {
    /// Asks for the names of the block devices, and puts those that do not wait to be probed yet
    /// at the end of the queue.
    pub fn sync_devices<Q: FnOnce() -> Result<Vec<String>, Error>>(&mut self, query: Q) -> (r:
        Result<(), Error>)
        requires
            call_requires(query, ()),
        ensures
            synced(query, old(self)@, final(self)@, super::failure(r)),
            old(self).wf() ==> final(self).wf(),
            old(self)@.keeps_books(final(self)@),
    {
        let out = query();
        assert(call_ensures(query, (), out));
        let names = match out {
            Ok(names) => names,
            Err(e) => {
                return Err(e);
            },
        };
        let ghost all = text::texts(names@);
        let ghost start = self@;
        let mut i: usize = 0;
        assert(all.take(0) =~= Seq::<Seq<char>>::empty());
        while i < names.len()
            invariant
                i <= names@.len(),
                all == text::texts(names@),
                start == old(self)@,
                self.name_to_badge == old(self).name_to_badge,
                self.buffer_cache == old(self).buffer_cache,
                self@ == (ServerState {
                    pending_devices: enqueued(start.pending_devices, all.take(i as int)),
                    ..start
                }),
            decreases names@.len() - i,
        {
            let ghost before = self@.pending_devices;
            proof {
                assert(all.take(i + 1).drop_last() =~= all.take(i as int));
                assert(all.take(i + 1).last() == names@[i as int]@);
            }
            if !queue_contains(&self.pending_devices, &names[i]) {
                self.pending_devices.push_back(names[i].clone());
                assert(self@.pending_devices =~= before.push(names@[i as int]@));
            }
            i = i + 1;
            assert(self@ =~= (ServerState {
                pending_devices: enqueued(start.pending_devices, all.take(i as int)),
                ..start
            }));
        }
        assert(all.take(i as int) =~= all);
        Ok(())
    }

    /// Takes the next device out of the queue.
    pub fn next_pending_device(&mut self) -> (r: Option<String>)
        ensures
            old(self).wf() ==> final(self).wf(),
            old(self)@.keeps_books(final(self)@),
            match r {
                Some(name) => old(self)@.pending_devices.len() > 0 && name@ == old(
                    self,
                )@.pending_devices[0] && final(self)@ == (ServerState {
                    pending_devices: old(self)@.pending_devices.skip(1),
                    ..old(self)@
                }),
                None => old(self)@.pending_devices.len() == 0 && final(self)@ == old(self)@,
            },
    {
        let r = self.pending_devices.pop_front();
        proof {
            if r is Some {
                assert(self@ =~= (ServerState {
                    pending_devices: old(self)@.pending_devices.skip(1),
                    ..old(self)@
                }));
            }
        }
        r
    }

    /// Whether a device out of the queue is to be probed: it is a block device and was not probed
    /// before.
    pub fn should_probe(&self, hardware_id: usize, is_block: bool) -> (r: bool)
        ensures
            r == (is_block && !self@.probed_hardware.contains(hardware_id)),
    {
        is_block && !self.probed_hardware.contains(&hardware_id)
    }

    /// Answers the notification that the devices have changed.
    pub fn handle_notify_sync<Q: FnOnce() -> Result<Vec<String>, Error>>(
        &mut self,
        query: Q,
    ) -> (r: Result<(), Error>)
        requires
            call_requires(query, ()),
        ensures
            synced(query, old(self)@, final(self)@, super::failure(r)),
            old(self).wf() ==> final(self).wf(),
            old(self)@.keeps_books(final(self)@),
    {
        self.sync_devices(query)
    }
}

/// Offering names to a queue keeps what it holds in place, puts every name into it, and puts in
/// nothing else and nothing twice.
pub proof fn law_queue_takes_each_name_once(queue: Seq<Seq<char>>, names: Seq<Seq<char>>)
    ensures
        queue.len() <= enqueued(queue, names).len(),
        enqueued(queue, names).take(queue.len() as int) == queue,
        forall|name: Seq<char>| #[trigger]
            enqueued(queue, names).contains(name) <==> queue.contains(name) || names.contains(name),
        queue.no_duplicates() ==> enqueued(queue, names).no_duplicates(),
    decreases names.len(),
{
    let after = enqueued(queue, names);
    if names.len() == 0 {
        assert(after.take(queue.len() as int) =~= queue);
    } else {
        let fewer = names.drop_last();
        let before = enqueued(queue, fewer);
        law_queue_takes_each_name_once(queue, fewer);
        if !before.contains(names.last()) {
            assert(after.take(queue.len() as int) =~= before.take(queue.len() as int));
            assert(after[before.len() as int] == names.last());
        }
        assert(names[names.len() - 1] == names.last());
        assert forall|name: Seq<char>| #[trigger]
            after.contains(name) <==> queue.contains(name) || names.contains(name) by {
            if before.contains(name) {
                let i = choose|i: int| 0 <= i < before.len() && before[i] == name;
                assert(after[i] == name);
            }
            if names.contains(name) && name != names.last() {
                let i = choose|i: int| 0 <= i < names.len() && names[i] == name;
                assert(fewer[i] == name);
            }
            if fewer.contains(name) {
                let i = choose|i: int| 0 <= i < fewer.len() && fewer[i] == name;
                assert(names[i] == name);
            }
            if after.contains(name) && name != names.last() {
                let i = choose|i: int| 0 <= i < after.len() && after[i] == name;
                assert(before[i] == name);
            }
        }
    }
}

/// Syncing twice with the same answer queues nothing the second time.
pub proof fn law_queueing_again_changes_nothing(queue: Seq<Seq<char>>, names: Seq<Seq<char>>)
    requires
        forall|i: int| 0 <= i < names.len() ==> queue.contains(#[trigger] names[i]),
    ensures
        enqueued(queue, names) == queue,
    decreases names.len(),
{
    if names.len() > 0 {
        let fewer = names.drop_last();
        assert forall|i: int| 0 <= i < fewer.len() implies queue.contains(#[trigger] fewer[i]) by {
            assert(fewer[i] == names[i]);
        }
        law_queueing_again_changes_nothing(queue, fewer);
        assert(queue.contains(names[names.len() - 1]));
    }
}

/// Which results describing a device may give, for its name.
pub type DescribeAnswers = spec_fn(String, Result<(usize, bool), Error>) -> bool;

/// The results that a closure which describes devices may give.
pub open spec fn describe_answers<N: FnOnce(String) -> Result<(usize, bool), Error>>(
    describe: N,
) -> DescribeAnswers {
    |name: String, out: Result<(usize, bool), Error>| call_ensures(describe, (name,), out)
}

/// Which results connecting to a device may give, for its name and number.
pub type AttachAnswers = spec_fn(String, usize, Result<(Endpoint, BlockDevice), Error>) -> bool;

/// The results that a closure which connects to devices may give.
pub open spec fn attach_answers<
    A: FnOnce(String, usize) -> Result<(Endpoint, BlockDevice), Error>,
>(attach: A) -> AttachAnswers {
    |name: String, hw_id: usize, out: Result<(Endpoint, BlockDevice), Error>|
        call_ensures(attach, (name, hw_id), out)
}

/// The blocks of the devices that are connected to fit in those of the cache.
pub open spec fn attached_fit(attach: AttachAnswers, cache_block_size: usize) -> bool {
    forall|name: String, hw_id: usize, out: Result<(Endpoint, BlockDevice), Error>| #[trigger]
        attach(name, hw_id, out) ==> (out matches Ok(attached) ==> 0 < attached.1.block_size
            <= cache_block_size)
}

/// Whether a device of this name may be described as the block device `hw_id`.
pub open spec fn is_block<N: FnOnce(String) -> Result<(usize, bool), Error>>(
    describe: N,
    name: Seq<char>,
    hw_id: usize,
) -> bool {
    exists|asked: String|
        asked@ == name && #[trigger] call_ensures(
            describe,
            (asked,),
            Ok::<(usize, bool), Error>((hw_id, true)),
        )
}

/// What is needed of the closures that describe a device and connect to it: the one may be asked of
/// the device of this name, the other only where that is described as a block device that was not
/// probed before; and the blocks of the device fit in those of the cache.
pub open spec fn attaches<
    N: FnOnce(String) -> Result<(usize, bool), Error>,
    A: FnOnce(String, usize) -> Result<(Endpoint, BlockDevice), Error>,
>(describe: N, attach: A, name: Seq<char>, state: ServerState) -> bool {
    &&& forall|asked: String| asked@ == name ==> #[trigger] call_requires(describe, (asked,))
    &&& forall|asked: String, hw_id: usize|
        asked@ == name && is_block(describe, name, hw_id) && !state.probed_hardware.contains(
            hw_id,
        ) ==> #[trigger] call_requires(attach, (asked, hw_id))
    &&& attached_fit(attach_answers(attach), state.cache.block_size)
}

/// What is needed of the closures that describe the devices in the queue and connect to them.
pub open spec fn attaches_queue<
    N: FnMut(String) -> Result<(usize, bool), Error>,
    A: FnMut(String, usize) -> Result<(Endpoint, BlockDevice), Error>,
>(describe: N, attach: A, state: ServerState) -> bool {
    &&& forall|name: Seq<char>|
        state.pending_devices.contains(name) ==> #[trigger] attaches(describe, attach, name, state)
    &&& attached_fit(attach_answers(attach), state.cache.block_size)
}

/// Whether the blocks of the devices that the server is connected to fit in those of its cache.
pub open spec fn clients_fit(state: ServerState) -> bool {
    forall|hw_id: usize| #[trigger]
        state.device_clients.contains_key(hw_id) ==> 0 < state.device_clients[hw_id].block_size
            <= state.cache.block_size
}

/// The device out of the front of the queue was described, and if it is a block device that was not
/// probed before, connected to and probed.
pub open spec fn front_probed(
    describe: DescribeAnswers,
    attach: AttachAnswers,
    dev: DeviceAnswers,
    spawn: SpawnAnswers,
    name: Seq<char>,
    before: ServerStore,
    after: ServerStore,
    failed: Option<Error>,
) -> bool {
    exists|asked: String, described: Result<(usize, bool), Error>|
        {
            &&& #[trigger] describe(asked, described)
            &&& asked@ == name
            &&& match described {
                Err(e) => after == before && failed == Some(e),
                Ok((hw_id, is_block)) => if is_block && !before.state.probed_hardware.contains(
                    hw_id,
                ) {
                    device_attached(attach, dev, spawn, name, hw_id, before, after, failed)
                } else {
                    after == before && failed is None
                },
            }
        }
}

/// A device was connected to and probed.
pub open spec fn device_attached(
    attach: AttachAnswers,
    dev: DeviceAnswers,
    spawn: SpawnAnswers,
    name: Seq<char>,
    hw_id: usize,
    before: ServerStore,
    after: ServerStore,
    failed: Option<Error>,
) -> bool {
    exists|asked: String, attached: Result<(Endpoint, BlockDevice), Error>|
        {
            &&& #[trigger] attach(asked, hw_id, attached)
            &&& asked@ == name
            &&& probed_as(attached, dev, spawn, name, hw_id, before, after, failed)
        }
}

/// A device was probed, given what became of the attempt to connect to it.
pub open spec fn probed_as(
    attached: Result<(Endpoint, BlockDevice), Error>,
    dev: DeviceAnswers,
    spawn: SpawnAnswers,
    name: Seq<char>,
    hw_id: usize,
    before: ServerStore,
    after: ServerStore,
    failed: Option<Error>,
) -> bool {
    match attached {
        Err(e) => after == before && failed == Some(e),
        Ok((endpoint, client)) => probing::probed(
            dev,
            spawn,
            ProbedDevice {
                hw_id,
                name,
                endpoint,
                client: if before.state.device_clients.contains_key(hw_id) {
                    before.state.device_clients[hw_id]
                } else {
                    client
                },
            },
            before,
            after,
            failed,
        ),
    }
}

impl ServerStore {
    /// The server without the device at the front of its queue.
    pub open spec fn without_front(self) -> ServerStore {
        ServerStore {
            state: ServerState {
                pending_devices: self.state.pending_devices.skip(1),
                ..self.state
            },
            ..self
        }
    }
}

/// The devices in the queue were probed, one after the other: all of them, or up to the first that
/// failed.
pub open spec fn queue_probed(
    describe: DescribeAnswers,
    attach: AttachAnswers,
    dev: DeviceAnswers,
    spawn: SpawnAnswers,
    before: ServerStore,
    after: ServerStore,
    failed: Option<Error>,
) -> bool
    decreases before.state.pending_devices.len(),
{
    let queue = before.state.pending_devices;
    if queue.len() == 0 {
        after == before && failed is None
    } else {
        exists|between: ServerStore, stopped: Option<Error>|
            {
                &&& #[trigger] front_probed(
                    describe,
                    attach,
                    dev,
                    spawn,
                    queue[0],
                    before.without_front(),
                    between,
                    stopped,
                )
                &&& between.state.pending_devices == queue.skip(1)
                &&& match stopped {
                    Some(e) => after == between && failed == Some(e),
                    None => queue_probed(
                        describe,
                        attach,
                        dev,
                        spawn,
                        between,
                        after,
                        failed,
                    ),
                }
            }
    }
}

impl FossilServer {
    fn attach_and_probe<
        A: FnOnce(String, usize) -> Result<(Endpoint, BlockDevice), Error>,
        D: Fn(usize, usize, usize) -> Result<Vec<u8>, Error>,
        S: FnMut(String) -> Result<usize, Error>,
    >(
        &mut self,
        arena: &mut [u8],
        name: String,
        hw_id: usize,
        attach: A,
        dev: &D,
        spawn: &mut S,
    ) -> (failed: Option<Error>)
        requires
            old(self).wf(),
            forall|asked: String|
                asked@ == name@ ==> #[trigger] call_requires(attach, (asked, hw_id)),
            attached_fit(attach_answers(attach), old(self)@.cache.block_size),
            clients_fit(old(self)@),
            reader::reads_blocks(*dev),
            super::spawns(*old(spawn), old(self)@.config),
            old(self)@.global_shm is Some ==> (ServerStore {
                state: old(self)@,
                arena: old(arena)@,
            }).store().can_serve(1),
        ensures
            final(self).wf(),
            *final(spawn) == *old(spawn),
            clients_fit(final(self)@),
            final(self)@.cache.block_size == old(self)@.cache.block_size,
            final(self)@.pending_devices == old(self)@.pending_devices,
            final(self)@.config == old(self)@.config,
            old(self)@.probed_hardware.subset_of(final(self)@.probed_hardware),
            final(self)@.global_shm is Some ==> (ServerStore {
                state: final(self)@,
                arena: final(arena)@,
            }).store().can_serve(1),
            exists|asked: String, attached: Result<(Endpoint, BlockDevice), Error>|
                {
                    &&& #[trigger] call_ensures(attach, (asked, hw_id), attached)
                    &&& asked@ == name@
                    &&& probed_as(
                        attached,
                        reader::answers(*dev),
                        super::spawn_answers(*old(spawn)),
                        name@,
                        hw_id,
                        ServerStore { state: old(self)@, arena: old(arena)@ },
                        ServerStore { state: final(self)@, arena: final(arena)@ },
                        failed,
                    )
                },
    {
        let asked = name.clone();
        let ghost arg = asked;
        let attached = attach(asked, hw_id);
        assert(call_ensures(attach, (arg, hw_id), attached));
        assert(attach_answers(attach)(arg, hw_id, attached));
        let (endpoint, client): (Endpoint, BlockDevice) = match attached {
            Ok(a) => a,
            Err(e) => {
                return Some(e);
            },
        };
        let r = self.probe(arena, hw_id, name.as_str(), endpoint, client, dev, spawn);
        match r {
            Ok(_) => None,
            Err(e) => Some(e),
        }
    }

    fn probe_front<
        N: FnMut(String) -> Result<(usize, bool), Error>,
        A: FnMut(String, usize) -> Result<(Endpoint, BlockDevice), Error>,
        D: Fn(usize, usize, usize) -> Result<Vec<u8>, Error>,
        S: FnMut(String) -> Result<usize, Error>,
    >(
        &mut self,
        arena: &mut [u8],
        name: String,
        describe: &mut N,
        attach: &mut A,
        dev: &D,
        spawn: &mut S,
    ) -> (failed: Option<Error>)
        requires
            old(self).wf(),
            attaches(*old(describe), *old(attach), name@, old(self)@),
            clients_fit(old(self)@),
            reader::reads_blocks(*dev),
            super::spawns(*old(spawn), old(self)@.config),
            old(self)@.global_shm is Some ==> (ServerStore {
                state: old(self)@,
                arena: old(arena)@,
            }).store().can_serve(1),
        ensures
            final(self).wf(),
            *final(describe) == *old(describe),
            *final(attach) == *old(attach),
            *final(spawn) == *old(spawn),
            clients_fit(final(self)@),
            final(self)@.cache.block_size == old(self)@.cache.block_size,
            final(self)@.pending_devices == old(self)@.pending_devices,
            final(self)@.config == old(self)@.config,
            old(self)@.probed_hardware.subset_of(final(self)@.probed_hardware),
            final(self)@.global_shm is Some ==> (ServerStore {
                state: final(self)@,
                arena: final(arena)@,
            }).store().can_serve(1),
            front_probed(
                describe_answers(*old(describe)),
                attach_answers(*old(attach)),
                reader::answers(*dev),
                super::spawn_answers(*old(spawn)),
                name@,
                ServerStore { state: old(self)@, arena: old(arena)@ },
                ServerStore { state: final(self)@, arena: final(arena)@ },
                failed,
            ),
    {
        let ghost before = ServerStore { state: self@, arena: arena@ };
        let asked = name.clone();
        let ghost arg = asked;
        let described = describe(asked);
        assert(describe_answers(*old(describe))(arg, described));
        let (hw_id, is_block): (usize, bool) = match described {
            Ok(d) => d,
            Err(e) => {
                return Some(e);
            },
        };
        if !self.should_probe(hw_id, is_block) {
            return None;
        }
        let ghost shown = name@;
        let connect = &mut *attach;
        proof {
            assert(self::is_block(*old(describe), name@, hw_id));
            assert forall|a: String, h: usize, out: Result<(Endpoint, BlockDevice), Error>|
                #[trigger]
                attach_answers(connect)(a, h, out) implies attach_answers(*connect)(a, h, out) by {}
            assert(forall|a: String, out: Result<(Endpoint, BlockDevice), Error>| #[trigger]
                call_ensures(connect, (a, hw_id), out) ==> attach_answers(*connect)(
                    a,
                    hw_id,
                    out,
                ));
        }
        let failed = self.attach_and_probe(arena, name, hw_id, connect, dev, spawn);
        assert(device_attached(
            attach_answers(*old(attach)),
            reader::answers(*dev),
            super::spawn_answers(*old(spawn)),
            shown,
            hw_id,
            before,
            ServerStore { state: self@, arena: arena@ },
            failed,
        ));
        failed
    }

    /// Probes the devices in the queue, in order, until one fails. A device that failed is out of
    /// the queue too.
    pub fn process_pending_probes<
        N: FnMut(String) -> Result<(usize, bool), Error>,
        A: FnMut(String, usize) -> Result<(Endpoint, BlockDevice), Error>,
        D: Fn(usize, usize, usize) -> Result<Vec<u8>, Error>,
        S: FnMut(String) -> Result<usize, Error>,
    >(
        &mut self,
        arena: &mut [u8],
        describe: &mut N,
        attach: &mut A,
        dev: &D,
        spawn: &mut S,
    ) -> (r: Result<(), Error>)
        requires
            old(self).wf(),
            attaches_queue(*old(describe), *old(attach), old(self)@),
            clients_fit(old(self)@),
            reader::reads_blocks(*dev),
            super::spawns(*old(spawn), old(self)@.config),
            old(self)@.pending_devices.len() > 0 && old(self)@.global_shm is Some ==> (
            ServerStore { state: old(self)@, arena: old(arena)@ }).store().can_serve(1),
        ensures
            final(self).wf(),
            queue_probed(
                describe_answers(*old(describe)),
                attach_answers(*old(attach)),
                reader::answers(*dev),
                super::spawn_answers(*old(spawn)),
                ServerStore { state: old(self)@, arena: old(arena)@ },
                ServerStore { state: final(self)@, arena: final(arena)@ },
                super::failure(r),
            ),
    {
        let ghost start = ServerStore { state: self@, arena: arena@ };
        while self.pending_devices.len() > 0
            invariant
                self.wf(),
                *describe == *old(describe),
                *attach == *old(attach),
                *spawn == *old(spawn),
                attaches_queue(*describe, *attach, start.state),
                start.state.probed_hardware.subset_of(self@.probed_hardware),
                self@.config == start.state.config,
                self@.cache.block_size == start.state.cache.block_size,
                forall|name: Seq<char>| #[trigger]
                    self@.pending_devices.contains(name)
                        ==> start.state.pending_devices.contains(name),
                clients_fit(self@),
                reader::reads_blocks(*dev),
                super::spawns(*spawn, start.state.config),
                self@.pending_devices.len() > 0 && self@.global_shm is Some ==> (ServerStore {
                    state: self@,
                    arena: arena@,
                }).store().can_serve(1),
                forall|after: ServerStore, failed: Option<Error>| #[trigger]
                    queue_probed(
                        describe_answers(*old(describe)),
                        attach_answers(*old(attach)),
                        reader::answers(*dev),
                        super::spawn_answers(*old(spawn)),
                        ServerStore { state: self@, arena: arena@ },
                        after,
                        failed,
                    ) ==> queue_probed(
                        describe_answers(*old(describe)),
                        attach_answers(*old(attach)),
                        reader::answers(*dev),
                        super::spawn_answers(*old(spawn)),
                        start,
                        after,
                        failed,
                    ),
                start == (ServerStore { state: old(self)@, arena: old(arena)@ }),
            decreases self@.pending_devices.len(),
        {
            let ghost now = ServerStore { state: self@, arena: arena@ };
            let name = match self.next_pending_device() {
                Some(name) => name,
                None => {
                    return Ok(());
                },
            };
            let ghost taken = ServerStore { state: self@, arena: arena@ };
            assert(taken == now.without_front());
            assert(now.state.pending_devices.contains(now.state.pending_devices[0]));
            assert(attaches(*describe, *attach, name@, start.state));
            assert(attaches(*describe, *attach, name@, self@));
            let stopped = self.probe_front(arena, name, describe, attach, dev, spawn);
            let ghost between = ServerStore { state: self@, arena: arena@ };
            proof {
                assert forall|n: Seq<char>| #[trigger]
                    self@.pending_devices.contains(
                        n,
                    ) implies start.state.pending_devices.contains(n) by {
                    let k = choose|k: int|
                        0 <= k < self@.pending_devices.len() && self@.pending_devices[k] == n;
                    assert(now.state.pending_devices[k + 1] == n);
                    assert(now.state.pending_devices.contains(n));
                }
                assert(front_probed(
                    describe_answers(*old(describe)),
                    attach_answers(*old(attach)),
                    reader::answers(*dev),
                    super::spawn_answers(*old(spawn)),
                    now.state.pending_devices[0],
                    now.without_front(),
                    between,
                    stopped,
                ));
                assert forall|after: ServerStore, failed: Option<Error>|
                    (match stopped {
                        Some(e) => after == between && failed == Some(e),
                        None => #[trigger] queue_probed(
                            describe_answers(*old(describe)),
                            attach_answers(*old(attach)),
                            reader::answers(*dev),
                            super::spawn_answers(*old(spawn)),
                            between,
                            after,
                            failed,
                        ),
                    }) implies queue_probed(
                    describe_answers(*old(describe)),
                    attach_answers(*old(attach)),
                    reader::answers(*dev),
                    super::spawn_answers(*old(spawn)),
                    start,
                    after,
                    failed,
                ) by {
                    assert(queue_probed(
                        describe_answers(*old(describe)),
                        attach_answers(*old(attach)),
                        reader::answers(*dev),
                        super::spawn_answers(*old(spawn)),
                        now,
                        after,
                        failed,
                    ));
                }
            }
            if let Some(e) = stopped {
                assert(queue_probed(
                    describe_answers(*old(describe)),
                    attach_answers(*old(attach)),
                    reader::answers(*dev),
                    super::spawn_answers(*old(spawn)),
                    now,
                    between,
                    Some(e),
                ));
                return Err(e);
            }
        }
        proof {
            let end = ServerStore { state: self@, arena: arena@ };
            assert(queue_probed(
                describe_answers(*old(describe)),
                attach_answers(*old(attach)),
                reader::answers(*dev),
                super::spawn_answers(*old(spawn)),
                end,
                end,
                None,
            ));
        }
        Ok(())
    }
}

/// Probing the queue takes devices out at its front: all of them where nothing fails, and otherwise
/// those up to and with the one that failed.
pub proof fn law_queue_is_worked_off(
    describe: DescribeAnswers,
    attach: AttachAnswers,
    dev: DeviceAnswers,
    spawn: SpawnAnswers,
    before: ServerStore,
    after: ServerStore,
    failed: Option<Error>,
) -> (taken: int)
    requires
        queue_probed(describe, attach, dev, spawn, before, after, failed),
    ensures
        0 <= taken <= before.state.pending_devices.len(),
        after.state.pending_devices == before.state.pending_devices.skip(taken),
        failed is None ==> taken == before.state.pending_devices.len(),
        failed is Some ==> taken >= 1,
    decreases before.state.pending_devices.len(),
{
    let queue = before.state.pending_devices;
    if queue.len() == 0 {
        assert(queue.skip(0) =~= queue);
        0
    } else {
        let (between, stopped) = choose|between: ServerStore, stopped: Option<Error>|
            {
                &&& #[trigger] front_probed(
                    describe,
                    attach,
                    dev,
                    spawn,
                    queue[0],
                    before.without_front(),
                    between,
                    stopped,
                )
                &&& between.state.pending_devices == queue.skip(1)
                &&& match stopped {
                    Some(e) => after == between && failed == Some(e),
                    None => queue_probed(
                        describe,
                        attach,
                        dev,
                        spawn,
                        between,
                        after,
                        failed,
                    ),
                }
            };
        if stopped is Some {
            1
        } else {
            let more = law_queue_is_worked_off(
                describe,
                attach,
                dev,
                spawn,
                between,
                after,
                failed,
            );
            assert(queue.skip(1).skip(more) =~= queue.skip(more + 1));
            more + 1
        }
    }
}

/// Probing the queue keeps the bookkeeping, as long as there are numbers for all partitions that
/// the devices can turn out to have.
pub proof fn law_queue_keeps_bookkeeping(
    describe: DescribeAnswers,
    attach: AttachAnswers,
    dev: DeviceAnswers,
    spawn: SpawnAnswers,
    cache_block_size: usize,
    before: ServerStore,
    after: ServerStore,
    failed: Option<Error>,
)
    requires
        attached_fit(attach, cache_block_size),
        forall|hw_id: usize| #[trigger]
            before.state.device_clients.contains_key(hw_id)
                ==> before.state.device_clients[hw_id].block_size > 0,
        before.state.consistent(),
        before.state.numbered(),
        before.state.next_badge + before.state.pending_devices.len() * probing::most_partitions()
            <= super::HARDWARE_REQUEST,
        queue_probed(describe, attach, dev, spawn, before, after, failed),
    ensures
        after.state.consistent(),
        after.state.numbered(),
        before.state.driver_pids.submap_of(after.state.driver_pids),
    decreases before.state.pending_devices.len(),
{
    let queue = before.state.pending_devices;
    if queue.len() > 0 {
        let (between, stopped) = choose|between: ServerStore, stopped: Option<Error>|
            {
                &&& #[trigger] front_probed(
                    describe,
                    attach,
                    dev,
                    spawn,
                    queue[0],
                    before.without_front(),
                    between,
                    stopped,
                )
                &&& between.state.pending_devices == queue.skip(1)
                &&& match stopped {
                    Some(e) => after == between && failed == Some(e),
                    None => queue_probed(
                        describe,
                        attach,
                        dev,
                        spawn,
                        between,
                        after,
                        failed,
                    ),
                }
            };
        let most = probing::most_partitions();
        assert(queue.len() * most == (queue.len() - 1) * most + most) by (nonlinear_arith);
        assert(0 <= (queue.len() - 1) * most) by (nonlinear_arith)
            requires
                queue.len() >= 1,
                most >= 0,
        ;
        lemma_front_keeps_bookkeeping(
            describe,
            attach,
            dev,
            spawn,
            cache_block_size,
            queue[0],
            before.without_front(),
            between,
            stopped,
        );
        if stopped is None {
            law_queue_keeps_bookkeeping(
                describe,
                attach,
                dev,
                spawn,
                cache_block_size,
                between,
                after,
                failed,
            );
            lemma_submap_of_submap(
                before.without_front().state.driver_pids,
                between.state.driver_pids,
                after.state.driver_pids,
            );
        }
    }
}

proof fn lemma_submap_of_submap(a: Map<usize, usize>, b: Map<usize, usize>, c: Map<usize, usize>)
    requires
        a.submap_of(b),
        b.submap_of(c),
    ensures
        a.submap_of(c),
{
    assert forall|k: usize| #[trigger] a.dom().contains(k) implies c.dom().contains(k) && a[k]
        == c[k] by {
        assert(b.dom().contains(k));
        assert(c.dom().contains(k));
        assert(a[k] == b[k]);
        assert(b[k] == c[k]);
    }
}

proof fn lemma_front_keeps_bookkeeping(
    describe: DescribeAnswers,
    attach: AttachAnswers,
    dev: DeviceAnswers,
    spawn: SpawnAnswers,
    cache_block_size: usize,
    name: Seq<char>,
    before: ServerStore,
    after: ServerStore,
    failed: Option<Error>,
)
    requires
        attached_fit(attach, cache_block_size),
        forall|hw_id: usize| #[trigger]
            before.state.device_clients.contains_key(hw_id)
                ==> before.state.device_clients[hw_id].block_size > 0,
        before.state.consistent(),
        before.state.numbered(),
        before.state.next_badge + probing::most_partitions() <= super::HARDWARE_REQUEST,
        front_probed(describe, attach, dev, spawn, name, before, after, failed),
    ensures
        after.state.consistent(),
        after.state.numbered(),
        before.state.driver_pids.submap_of(after.state.driver_pids),
        after.state.next_badge <= before.state.next_badge + probing::most_partitions(),
        forall|hw_id: usize| #[trigger]
            after.state.device_clients.contains_key(hw_id)
                ==> after.state.device_clients[hw_id].block_size > 0,
{
    if after != before {
        let (asked, described) = choose|asked: String, described: Result<(usize, bool), Error>|
            {
                &&& #[trigger] describe(asked, described)
                &&& asked@ == name
                &&& described is Ok
                &&& described->Ok_0.1 && !before.state.probed_hardware.contains(described->Ok_0.0)
                &&& device_attached(
                    attach,
                    dev,
                    spawn,
                    name,
                    described->Ok_0.0,
                    before,
                    after,
                    failed,
                )
            };
        let hw_id = described->Ok_0.0;
        let (asked, attached) = choose|
            asked: String,
            attached: Result<(Endpoint, BlockDevice), Error>,
        |
            {
                &&& #[trigger] attach(asked, hw_id, attached)
                &&& asked@ == name
                &&& attached is Ok
                &&& probing::probed(
                    dev,
                    spawn,
                    ProbedDevice {
                        hw_id,
                        name,
                        endpoint: attached->Ok_0.0,
                        client: if before.state.device_clients.contains_key(hw_id) {
                            before.state.device_clients[hw_id]
                        } else {
                            attached->Ok_0.1
                        },
                    },
                    before,
                    after,
                    failed,
                )
            };
        let device = ProbedDevice {
            hw_id,
            name,
            endpoint: attached->Ok_0.0,
            client: if before.state.device_clients.contains_key(hw_id) {
                before.state.device_clients[hw_id]
            } else {
                attached->Ok_0.1
            },
        };
        probing::law_probe_keeps_bookkeeping(dev, spawn, device, before, after, failed);
        probing::lemma_probe_connects(dev, spawn, device, before, after, failed);
    }
}

/// Names that a queue does not hold are put at its end in the order in which they are named.
pub proof fn law_new_names_queue_up_in_order(queue: Seq<Seq<char>>, names: Seq<Seq<char>>)
    requires
        names.no_duplicates(),
        forall|i: int| 0 <= i < names.len() ==> !queue.contains(#[trigger] names[i]),
    ensures
        enqueued(queue, names) == queue + names,
    decreases names.len(),
{
    if names.len() == 0 {
        assert(queue + names =~= queue);
    } else {
        let fewer = names.drop_last();
        assert forall|i: int| 0 <= i < fewer.len() implies !queue.contains(
            #[trigger] fewer[i],
        ) by {
            assert(!queue.contains(names[i]));
        }
        law_new_names_queue_up_in_order(queue, fewer);
        let before = queue + fewer;
        let name = names[names.len() - 1];
        assert(!queue.contains(name));
        if before.contains(name) {
            let i = choose|i: int| 0 <= i < before.len() && before[i] == name;
            if i < queue.len() {
                assert(queue[i] == name);
            } else {
                assert(names[i - queue.len()] == name);
            }
        }
        assert((queue + names) =~= before.push(name));
    }
}

/// When the devices are asked for, those that are named wait to be probed, behind those that wait
/// already and each once; nothing else changes, and nothing at all if they cannot be asked for.
pub proof fn law_named_devices_wait<Q: FnOnce() -> Result<Vec<String>, Error>>(
    query: Q,
    before: ServerState,
    after: ServerState,
    failed: Option<Error>,
) -> (named: Result<Vec<String>, Error>)
    requires
        synced(query, before, after, failed),
    ensures
        call_ensures(query, (), named),
        named is Err ==> failed == Some(named->Err_0) && after == before,
        named is Ok ==> {
            let names = named->Ok_0@;
            &&& failed is None
            &&& before.pending_devices.len() <= after.pending_devices.len()
            &&& after.pending_devices.take(before.pending_devices.len() as int)
                == before.pending_devices
            &&& forall|i: int|
                0 <= i < names.len() ==> after.pending_devices.contains(#[trigger] names[i]@)
            &&& before.pending_devices.no_duplicates() ==> after.pending_devices.no_duplicates()
        },
        after == (ServerState { pending_devices: after.pending_devices, ..before }),
{
    let out = choose|out: Result<Vec<String>, Error>| #[trigger]
        call_ensures(query, (), out) && match out {
            Err(e) => after == before && failed == Some(e),
            Ok(names) => failed is None && after == (ServerState {
                pending_devices: enqueued(before.pending_devices, text::texts(names@)),
                ..before
            }),
        };
    if let Ok(named) = out {
        let names = text::texts(named@);
        law_queue_takes_each_name_once(before.pending_devices, names);
        assert forall|i: int| 0 <= i < named@.len() implies after.pending_devices.contains(
            #[trigger] named@[i]@,
        ) by {
            assert(names[i] == named@[i]@);
            assert(names.contains(named@[i]@));
        }
    }
    out
}

/// A device out of the queue is probed if it is a block device that was not probed before: under
/// the number that it is described by and under its name, and as the server knows it, if it does,
/// or else as it was connected. `w` are what it was described as, and what became of connecting to
/// it.
pub proof fn law_new_block_devices_are_probed(
    describe: DescribeAnswers,
    attach: AttachAnswers,
    dev: DeviceAnswers,
    spawn: SpawnAnswers,
    name: Seq<char>,
    before: ServerStore,
    after: ServerStore,
    failed: Option<Error>,
) -> (w: (String, Result<(usize, bool), Error>, String, Result<(Endpoint, BlockDevice), Error>))
    requires
        front_probed(describe, attach, dev, spawn, name, before, after, failed),
    ensures
        describe(w.0, w.1),
        w.0@ == name,
        w.1 is Err ==> failed == Some(w.1->Err_0) && after == before,
        w.1 is Ok ==> {
            let hw_id = w.1->Ok_0.0;
            let fresh = w.1->Ok_0.1 && !before.state.probed_hardware.contains(hw_id);
            &&& !fresh ==> after == before && failed is None
            &&& fresh ==> {
                &&& attach(w.2, hw_id, w.3)
                &&& w.2@ == name
                &&& w.3 is Err ==> failed == Some(w.3->Err_0) && after == before
                &&& w.3 is Ok && before.state.device_clients.contains_key(hw_id)
                    ==> probing::probed(
                    dev,
                    spawn,
                    ProbedDevice {
                        hw_id,
                        name,
                        endpoint: w.3->Ok_0.0,
                        client: before.state.device_clients[hw_id],
                    },
                    before,
                    after,
                    failed,
                )
                &&& w.3 is Ok && !before.state.device_clients.contains_key(hw_id)
                    ==> probing::probed(
                    dev,
                    spawn,
                    ProbedDevice { hw_id, name, endpoint: w.3->Ok_0.0, client: w.3->Ok_0.1 },
                    before,
                    after,
                    failed,
                )
            }
        },
{
    let (asked, described) = choose|asked: String, described: Result<(usize, bool), Error>|
        {
            &&& #[trigger] describe(asked, described)
            &&& asked@ == name
            &&& match described {
                Err(e) => after == before && failed == Some(e),
                Ok((hw_id, is_block)) => if is_block && !before.state.probed_hardware.contains(
                    hw_id,
                ) {
                    device_attached(attach, dev, spawn, name, hw_id, before, after, failed)
                } else {
                    after == before && failed is None
                },
            }
        };
    if described is Ok && described->Ok_0.1 && !before.state.probed_hardware.contains(
        described->Ok_0.0,
    ) {
        let hw_id = described->Ok_0.0;
        let (named, attached) = choose|
            named: String,
            attached: Result<(Endpoint, BlockDevice), Error>,
        |
            {
                &&& #[trigger] attach(named, hw_id, attached)
                &&& named@ == name
                &&& probed_as(attached, dev, spawn, name, hw_id, before, after, failed)
            };
        (asked, described, named, attached)
    } else {
        (asked, described, arbitrary(), arbitrary())
    }
}

} // verus!
