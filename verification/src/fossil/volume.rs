//! What the server does for the drivers and clients of volumes.
use super::pending;
use super::{FossilServer, ServerState, SpawnAnswers};
use crate::cap::{CapPtr, Endpoint};
use crate::error::Error;
use std::collections::VecDeque;
use vstd::prelude::*;

verus! {

/// The state that a file system driver reports.
#[derive(Debug, Clone, Copy, PartialEq, Eq, Structural)]
pub enum ServiceState {
    Starting,
    Running,
    Stopped,
    Exited,
    Failed,
}

/// What a client that asked to mount a partition is answered.
#[derive(Debug, Clone, Copy, PartialEq, Eq, Structural)]
pub enum MountAnswer {
    /// The endpoint of the driver.
    Grant(Endpoint),
    Fail(Error),
}

/// An answer, and the reply capability through which it goes.
#[derive(Debug, Clone, Copy, PartialEq, Eq, Structural)]
pub struct MountReply {
    pub slot: CapPtr,
    pub answer: MountAnswer,
}

/// What the clients that wait for a driver are answered when it reports a state; `None` where they
/// go on waiting.
pub open spec fn mount_answer(state: ServiceState, endpoint: Option<Endpoint>) -> Option<
    MountAnswer,
> {
    match state {
        ServiceState::Running => Some(
            match endpoint {
                Some(ep) => MountAnswer::Grant(ep),
                None => MountAnswer::Fail(Error::NotFound),
            },
        ),
        ServiceState::Failed => Some(MountAnswer::Fail(Error::DeviceError)),
        ServiceState::Stopped => Some(MountAnswer::Fail(Error::NotFound)),
        ServiceState::Exited => Some(MountAnswer::Fail(Error::NotFound)),
        ServiceState::Starting => None,
    }
}

/// The same answer through each of the slots.
pub open spec fn replies_to(slots: Seq<CapPtr>, answer: MountAnswer) -> Seq<MountReply> {
    Seq::new(slots.len(), |i: int| MountReply { slot: slots[i], answer })
}

impl ServerState {
    /// The endpoint of a partition's driver, if it runs.
    pub open spec fn fs_endpoint(self, badge: usize) -> Option<Endpoint> {
        if self.fs_endpoints.contains_key(badge) {
            Some(self.fs_endpoints[badge])
        } else {
            None
        }
    }

    /// Those who wait for a partition's driver.
    pub open spec fn waiters(self, badge: usize) -> Seq<CapPtr> {
        if self.pending_mounts.contains_key(badge) {
            self.pending_mounts[badge]
        } else {
            Seq::empty()
        }
    }

    /// The server with one more who waits for a partition's driver.
    pub open spec fn with_waiter(self, badge: usize, slot: CapPtr) -> ServerState {
        ServerState {
            pending_mounts: self.pending_mounts.insert(badge, self.waiters(badge).push(slot)),
            ..self
        }
    }

    /// The server with nobody who waits for a partition's driver.
    pub open spec fn without_waiters(self, badge: usize) -> ServerState {
        ServerState { pending_mounts: self.pending_mounts.remove(badge), ..self }
    }

    /// The partition that a driver process, or a client by the partition's own badge, means.
    pub open spec fn partition_of(self, badge: usize) -> Option<usize> {
        if self.driver_to_partition.contains_key(badge) {
            Some(self.driver_to_partition[badge])
        } else if self.partitions.contains_key(badge) {
            Some(badge)
        } else {
            None
        }
    }
}

/// Those who wait for a driver were answered as its state demands.
pub open spec fn waiters_woken(
    before: ServerState,
    badge: usize,
    state: ServiceState,
    after: ServerState,
    replies: Seq<MountReply>,
) -> bool {
    match mount_answer(state, before.fs_endpoint(badge)) {
        Some(answer) => {
            &&& replies == replies_to(before.waiters(badge), answer)
            &&& after == before.without_waiters(badge)
        },
        None => {
            &&& replies.len() == 0
            &&& after == (if before.waiters(badge).len() > 0 {
                before
            } else {
                before.without_waiters(badge)
            })
        },
    }
}

/// The replies of a result as a sequence.
pub open spec fn replies_of(r: Result<Vec<MountReply>, Error>) -> Result<Seq<MountReply>, Error> {
    match r {
        Ok(replies) => Ok(replies@),
        Err(e) => Err(e),
    }
}

/// A driver process reported its state. A driver that runs must hand over its endpoint, which
/// `keep` puts into a slot of the server's own.
pub open spec fn state_reported<K: FnOnce(CapPtr) -> Result<Endpoint, Error>>(
    keep: K,
    before: ServerState,
    pid: usize,
    state: ServiceState,
    endpoint: Option<CapPtr>,
    after: ServerState,
    r: Result<Seq<MountReply>, Error>,
) -> bool {
    if !before.driver_to_partition.contains_key(pid) {
        after == before && r == Err::<Seq<MountReply>, Error>(Error::NotFound)
    } else {
        let badge = before.driver_to_partition[pid];
        let noted = ServerState {
            driver_states: before.driver_states.insert(badge, state),
            ..before
        };
        match (state, endpoint) {
            (ServiceState::Running, None) => {
                after == noted && r == Err::<Seq<MountReply>, Error>(Error::InvalidCapability)
            },
            (ServiceState::Running, Some(cap)) => {
                exists|out: Result<Endpoint, Error>| #[trigger]
                    call_ensures(keep, (cap,), out) && match out {
                        Err(e) => after == noted && r == Err::<Seq<MountReply>, Error>(e),
                        Ok(ep) => r is Ok && waiters_woken(
                            ServerState {
                                fs_endpoints: noted.fs_endpoints.insert(badge, ep),
                                ..noted
                            },
                            badge,
                            state,
                            after,
                            r->Ok_0,
                        ),
                    }
            },
            _ => r is Ok && waiters_woken(noted, badge, state, after, r->Ok_0),
        }
    }
}

/// A partition was looked up by name, and its driver started if there was none.
pub open spec fn driver_for_mount(
    spawn: SpawnAnswers,
    before: ServerState,
    name: Seq<char>,
    after: ServerState,
    r: Result<usize, Error>,
) -> bool {
    let badge = before.names[name];
    if !before.names.contains_key(name) || !before.partitions.contains_key(badge) {
        after == before && r == Err::<usize, Error>(Error::NotFound)
    } else {
        exists|failed: Option<Error>| #[trigger]
            super::driver_ensured(
                spawn,
                badge,
                before.partitions[badge].fs_type,
                before,
                after,
                failed,
            ) && r == (match failed {
                Some(e) => Err::<usize, Error>(e),
                None => Ok::<usize, Error>(badge),
            })
    }
}

/// A client asked to mount a partition, and is answered with the driver's endpoint; where there is
/// none yet, the reply is held back with `hold` until there is, which `Error::Success` tells.
pub open spec fn mount_requested<H: FnOnce() -> Result<CapPtr, Error>>(
    spawn: SpawnAnswers,
    hold: H,
    before: ServerState,
    name: Seq<char>,
    after: ServerState,
    r: Result<Endpoint, Error>,
) -> bool {
    exists|ready: ServerState, bound: Result<usize, Error>| #[trigger]
        driver_for_mount(spawn, before, name, ready, bound) && match bound {
            Err(e) => after == ready && r == Err::<Endpoint, Error>(e),
            Ok(badge) => match ready.fs_endpoint(badge) {
                Some(ep) => after == ready && r == Ok::<Endpoint, Error>(ep),
                None => exists|out: Result<CapPtr, Error>| #[trigger]
                    call_ensures(hold, (), out) && match out {
                        Err(e) => after == ready && r == Err::<Endpoint, Error>(e),
                        Ok(slot) => after == ready.with_waiter(badge, slot) && r == Err::<
                            Endpoint,
                            Error,
                        >(Error::Success),
                    },
            },
        }
}

/// A client asked to mount a partition and is answered at once: with the driver's endpoint, or
/// that there is none.
pub open spec fn mounted(
    spawn: SpawnAnswers,
    before: ServerState,
    name: Seq<char>,
    after: ServerState,
    r: Result<Endpoint, Error>,
) -> bool {
    exists|bound: Result<usize, Error>| #[trigger]
        driver_for_mount(spawn, before, name, after, bound) && r == (match bound {
            Err(e) => Err::<Endpoint, Error>(e),
            Ok(badge) => match after.fs_endpoint(badge) {
                Some(ep) => Ok::<Endpoint, Error>(ep),
                None => Err::<Endpoint, Error>(Error::NotFound),
            },
        })
}

/// An endpoint was made to the partition that a badge means, if it means one.
pub open spec fn device_given<M: FnOnce(usize) -> Result<Endpoint, Error>>(
    mint: M,
    state: ServerState,
    badge: usize,
    r: Result<Endpoint, Error>,
) -> bool {
    match state.partition_of(badge) {
        None => r == Err::<Endpoint, Error>(Error::NotFound),
        Some(partition) => call_ensures(mint, (partition,), r),
    }
}

/// A device was looked for by name, and if there is one, all devices were asked for.
pub open spec fn probe_asked<
    F: FnOnce() -> Result<Vec<String>, Error>,
    Q: FnOnce() -> Result<Vec<String>, Error>,
>(find: F, query: Q, before: ServerState, after: ServerState, failed: Option<Error>) -> bool {
    exists|out: Result<Vec<String>, Error>| #[trigger]
        call_ensures(find, (), out) && match out {
            Err(e) => after == before && failed == Some(e),
            Ok(names) => if names@.len() == 0 {
                after == before && failed == Some(Error::NotFound)
            } else {
                pending::synced(query, before, after, failed)
            },
        }
}

/// What is needed of the closure that makes endpoints: it may be asked for the partition that a
/// badge means, if it means one.
pub open spec fn mints<M: FnOnce(usize) -> Result<Endpoint, Error>>(
    mint: M,
    state: ServerState,
    badge: usize,
) -> bool {
    state.partition_of(badge) matches Some(partition) ==> call_requires(mint, (partition,))
}

/// Whether a device may be found.
pub open spec fn finds<F: FnOnce() -> Result<Vec<String>, Error>>(find: F) -> bool {
    exists|names: Vec<String>|
        names@.len() > 0 && #[trigger] call_ensures(find, (), Ok::<Vec<String>, Error>(names))
}

/// What is needed of the closures that find a device and ask for all: the latter may be called
/// once a device is found.
pub open spec fn searches<
    F: FnOnce() -> Result<Vec<String>, Error>,
    Q: FnOnce() -> Result<Vec<String>, Error>,
>(find: F, query: Q) -> bool {
    &&& call_requires(find, ())
    &&& finds(find) ==> call_requires(query, ())
}

/// What is needed of the closure that keeps capabilities: it may be given the endpoint with which a
/// driver of the server's reports to be running.
pub open spec fn keeps<K: FnOnce(CapPtr) -> Result<Endpoint, Error>>(
    keep: K,
    before: ServerState,
    pid: usize,
    state: ServiceState,
    endpoint: Option<CapPtr>,
) -> bool {
    before.driver_to_partition.contains_key(pid) && state == ServiceState::Running ==> (
    endpoint matches Some(cap) ==> call_requires(keep, (cap,)))
}

/// What is needed of the closure that starts drivers where the partition `name` is to be mounted:
/// it may be asked for what that partition needs.
pub open spec fn starts_for_mount<S: FnOnce(String) -> Result<usize, Error>>(
    spawn: S,
    state: ServerState,
    name: Seq<char>,
) -> bool {
    let badge = state.names[name];
    state.names.contains_key(name) && state.partitions.contains_key(badge) ==> super::starts(
        spawn,
        state,
        badge,
        state.partitions[badge].fs_type,
    )
}

/// Whether the partition `name` may turn out to have a driver, but none that has handed over its
/// endpoint.
pub open spec fn must_wait(spawn: SpawnAnswers, state: ServerState, name: Seq<char>) -> bool {
    exists|ready: ServerState, badge: usize| #[trigger]
        driver_for_mount(spawn, state, name, ready, Ok::<usize, Error>(badge))
            && ready.fs_endpoint(badge) is None
}

/// What is needed of the closures that start a driver and hold back a reply: the latter may be
/// called where the driver is there, or was started, and has not handed over its endpoint.
pub open spec fn mounts<
    S: FnOnce(String) -> Result<usize, Error>,
    H: FnOnce() -> Result<CapPtr, Error>,
>(spawn: S, hold: H, state: ServerState, name: Seq<char>) -> bool {
    &&& starts_for_mount(spawn, state, name)
    &&& must_wait(super::spawn_answers(spawn), state, name) ==> call_requires(hold, ())
}

impl FossilServer {
    /// Makes an endpoint to the partition that a driver process serves, or that a client names by
    /// its badge.
    pub fn get_device<M: FnOnce(usize) -> Result<Endpoint, Error>>(
        &self,
        badge: usize,
        mint: M,
    ) -> (r: Result<Endpoint, Error>)
        requires
            mints(mint, self@, badge),
        ensures
            device_given(mint, self@, badge, r),
    {
        let partition_badge: usize = match self.driver_to_partition.get(&badge) {
            Some(mapped) => *mapped,
            None => {
                if self.partitions.contains_key(&badge) {
                    badge
                } else {
                    return Err(Error::NotFound);
                }
            },
        };
        mint(partition_badge)
    }

    /// Probes a device on request: if `find` finds a device of that name, all devices are asked
    /// for with `query`.
    pub fn probe_device<
        F: FnOnce() -> Result<Vec<String>, Error>,
        Q: FnOnce() -> Result<Vec<String>, Error>,
    >(&mut self, find: F, query: Q) -> (r: Result<(), Error>)
        requires
            searches(find, query),
        ensures
            old(self).wf() ==> final(self).wf(),
            old(self)@.keeps_books(final(self)@),
            probe_asked(find, query, old(self)@, final(self)@, super::failure(r)),
    {
        let out = find();
        assert(call_ensures(find, (), out));
        match out {
            Err(e) => Err(e),
            Ok(names) => {
                if names.len() == 0 {
                    return Err(Error::NotFound);
                }
                self.sync_devices(query)
            },
        }
    }

    /// Puts a client at the end of those who wait for a partition's driver.
    pub fn queue_mount_reply(&mut self, partition_badge: usize, reply_slot: CapPtr)
        ensures
            old(self).wf() ==> final(self).wf(),
            final(self)@ == old(self)@.with_waiter(partition_badge, reply_slot),
    {
        let ghost waiting = self@.waiters(partition_badge);
        let mut waiters = match self.pending_mount_replies.remove(&partition_badge) {
            Some(waiters) => waiters,
            None => VecDeque::new(),
        };
        assert(waiters@ =~= waiting);
        waiters.push_back(reply_slot);
        self.pending_mount_replies.insert(partition_badge, waiters);
        proof {
            let after = old(self)@.with_waiter(partition_badge, reply_slot);
            assert(self@.pending_mounts =~= after.pending_mounts);
            assert(self@ =~= after);
        }
    }

    /// Answers those who wait for a partition's driver, as its state demands.
    pub fn wake_mount_waiters(&mut self, partition_badge: usize, state: ServiceState) -> (replies:
        Vec<MountReply>)
        ensures
            old(self).wf() ==> final(self).wf(),
            waiters_woken(old(self)@, partition_badge, state, final(self)@, replies@),
    {
        let mut replies: Vec<MountReply> = Vec::new();
        let waiters = match self.pending_mount_replies.remove(&partition_badge) {
            Some(waiters) => waiters,
            None => {
                proof {
                    let after = old(self)@.without_waiters(partition_badge);
                    assert(self@.pending_mounts =~= after.pending_mounts);
                    assert(self@ =~= after);
                    if let Some(answer) = mount_answer(
                        state,
                        old(self)@.fs_endpoint(partition_badge),
                    ) {
                        assert(replies@ =~= replies_to(
                            old(self)@.waiters(partition_badge),
                            answer,
                        ));
                    }
                }
                return replies;
            },
        };
        let ghost slots = waiters@;
        proof {
            assert(old(self)@.waiters(partition_badge) == slots);
            let after = old(self)@.without_waiters(partition_badge);
            assert(self@.pending_mounts =~= after.pending_mounts);
            assert(self@ =~= after);
        }
        let answer = match state {
            ServiceState::Running => match self.partition_fs_endpoints.get(&partition_badge) {
                Some(ep) => MountAnswer::Grant(*ep),
                None => MountAnswer::Fail(Error::NotFound),
            },
            ServiceState::Failed => MountAnswer::Fail(Error::DeviceError),
            ServiceState::Stopped => MountAnswer::Fail(Error::NotFound),
            ServiceState::Exited => MountAnswer::Fail(Error::NotFound),
            ServiceState::Starting => {
                if waiters.len() > 0 {
                    self.pending_mount_replies.insert(partition_badge, waiters);
                    proof {
                        assert(self@.pending_mounts =~= old(self)@.pending_mounts);
                        assert(self@ =~= old(self)@);
                    }
                }
                return replies;
            },
        };
        let mut i: usize = 0;
        while i < waiters.len()
            invariant
                i <= slots.len(),
                waiters@ == slots,
                replies@ == replies_to(slots.take(i as int), answer),
            decreases slots.len() - i,
        {
            replies.push(MountReply { slot: waiters[i], answer });
            i = i + 1;
            assert(replies@ =~= replies_to(slots.take(i as int), answer));
        }
        assert(slots.take(i as int) =~= slots);
        replies
    }

    /// Takes note of the state that a driver process reports, and answers those who wait for it.
    pub fn report_state<K: FnOnce(CapPtr) -> Result<Endpoint, Error>>(
        &mut self,
        driver_pid: usize,
        state: ServiceState,
        endpoint: Option<CapPtr>,
        keep: K,
    ) -> (r: Result<Vec<MountReply>, Error>)
        requires
            keeps(keep, old(self)@, driver_pid, state, endpoint),
        ensures
            old(self).wf() ==> final(self).wf(),
            state_reported(
                keep,
                old(self)@,
                driver_pid,
                state,
                endpoint,
                final(self)@,
                replies_of(r),
            ),
    {
        let partition_badge: usize = match self.driver_to_partition.get(&driver_pid) {
            Some(badge) => *badge,
            None => {
                return Err(Error::NotFound);
            },
        };
        self.partition_driver_states.insert(partition_badge, state);
        let ghost noted = self@;
        if state == ServiceState::Running {
            let endpoint_cap: CapPtr = match endpoint {
                Some(cap) => cap,
                None => {
                    return Err(Error::InvalidCapability);
                },
            };
            let out = keep(endpoint_cap);
            assert(call_ensures(keep, (endpoint_cap,), out));
            let slot: Endpoint = match out {
                Ok(slot) => slot,
                Err(e) => {
                    return Err(e);
                },
            };
            self.partition_fs_endpoints.insert(partition_badge, slot);
            assert(self@ =~= (ServerState {
                fs_endpoints: noted.fs_endpoints.insert(partition_badge, slot),
                ..noted
            }));
        }
        Ok(self.wake_mount_waiters(partition_badge, state))
    }

    fn driver_by_name<S: FnOnce(String) -> Result<usize, Error>>(
        &mut self,
        partition_name: &str,
        spawn: S,
    ) -> (r: Result<usize, Error>)
        requires
            old(self).wf(),
            starts_for_mount(spawn, old(self)@, partition_name@),
        ensures
            final(self).wf(),
            driver_for_mount(
                super::spawn_answers(spawn),
                old(self)@,
                partition_name@,
                final(self)@,
                r,
            ),
    {
        let partition_badge: usize = match self.name_to_badge.get(partition_name) {
            Some(badge) => badge,
            None => {
                return Err(Error::NotFound);
            },
        };
        let fs_type = match self.partitions.get(&partition_badge) {
            Some(proxy) => proxy.fs_type,
            None => {
                return Err(Error::NotFound);
            },
        };
        match self.ensure_partition_fs_driver(partition_badge, fs_type, spawn) {
            Ok(_) => Ok(partition_badge),
            Err(e) => Err(e),
        }
    }

    /// Answers a request to mount a partition. Where its driver does not run yet, the reply is
    /// held back with `hold`, and the result is `Error::Success`.
    pub fn handle_mount_partition_request<
        S: FnOnce(String) -> Result<usize, Error>,
        H: FnOnce() -> Result<CapPtr, Error>,
    >(&mut self, partition_name: &str, spawn: S, hold: H) -> (r: Result<Endpoint, Error>)
        requires
            old(self).wf(),
            mounts(spawn, hold, old(self)@, partition_name@),
        ensures
            final(self).wf(),
            mount_requested(
                super::spawn_answers(spawn),
                hold,
                old(self)@,
                partition_name@,
                final(self)@,
                r,
            ),
    {
        let bound = self.driver_by_name(partition_name, spawn);
        let ghost ready = self@;
        assert(driver_for_mount(
            super::spawn_answers(spawn),
            old(self)@,
            partition_name@,
            ready,
            bound,
        ));
        let partition_badge: usize = match bound {
            Ok(badge) => badge,
            Err(e) => {
                return Err(e);
            },
        };
        if let Some(fs_ep) = self.partition_fs_endpoints.get(&partition_badge) {
            return Ok(*fs_ep);
        }
        let out = hold();
        assert(call_ensures(hold, (), out));
        match out {
            Ok(slot) => {
                self.queue_mount_reply(partition_badge, slot);
                Err(Error::Success)
            },
            Err(e) => Err(e),
        }
    }

    /// The endpoint of the driver of a partition, which is started if there is none.
    pub fn mount_partition<S: FnOnce(String) -> Result<usize, Error>>(
        &mut self,
        partition_name: &str,
        spawn: S,
    ) -> (r: Result<Endpoint, Error>)
        requires
            old(self).wf(),
            starts_for_mount(spawn, old(self)@, partition_name@),
        ensures
            final(self).wf(),
            mounted(
                super::spawn_answers(spawn),
                old(self)@,
                partition_name@,
                final(self)@,
                r,
            ),
    {
        let bound = self.driver_by_name(partition_name, spawn);
        assert(driver_for_mount(
            super::spawn_answers(spawn),
            old(self)@,
            partition_name@,
            self@,
            bound,
        ));
        match bound {
            Ok(partition_badge) => match self.partition_fs_endpoints.get(&partition_badge) {
                Some(fs_ep) => Ok(*fs_ep),
                None => Err(Error::NotFound),
            },
            Err(e) => Err(e),
        }
    }
}

/// When a driver that runs hands over its endpoint, everybody who waits for it gets the endpoint,
/// in the order of their requests, and nobody waits any more.
pub proof fn law_waiting_clients_get_the_endpoint<K: FnOnce(CapPtr) -> Result<Endpoint, Error>>(
    keep: K,
    before: ServerState,
    pid: usize,
    endpoint: Option<CapPtr>,
    after: ServerState,
    replies: Seq<MountReply>,
    i: int,
)
    requires
        before.driver_to_partition.contains_key(pid),
        state_reported(
            keep,
            before,
            pid,
            ServiceState::Running,
            endpoint,
            after,
            Ok::<Seq<MountReply>, Error>(replies),
        ),
        0 <= i < before.waiters(before.driver_to_partition[pid]).len(),
    ensures
        ({
            let badge = before.driver_to_partition[pid];
            &&& after.fs_endpoint(badge) is Some
            &&& replies.len() == before.waiters(badge).len()
            &&& replies[i] == (MountReply {
                slot: before.waiters(badge)[i],
                answer: MountAnswer::Grant(after.fs_endpoint(badge)->0),
            })
            &&& after.waiters(badge).len() == 0
        }),
{
}

/// When a driver fails or ends, everybody who waits for it is told so, and nobody waits any more.
pub proof fn law_waiting_clients_learn_of_the_end<K: FnOnce(CapPtr) -> Result<Endpoint, Error>>(
    keep: K,
    before: ServerState,
    pid: usize,
    state: ServiceState,
    endpoint: Option<CapPtr>,
    after: ServerState,
    r: Result<Seq<MountReply>, Error>,
)
    requires
        before.driver_to_partition.contains_key(pid),
        state == ServiceState::Failed || state == ServiceState::Stopped || state
            == ServiceState::Exited,
        state_reported(keep, before, pid, state, endpoint, after, r),
    ensures
        ({
            let badge = before.driver_to_partition[pid];
            let e = if state == ServiceState::Failed {
                Error::DeviceError
            } else {
                Error::NotFound
            };
            &&& r == Ok::<Seq<MountReply>, Error>(
                replies_to(before.waiters(badge), MountAnswer::Fail(e)),
            )
            &&& after.waiters(badge).len() == 0
        }),
{
}

/// While a driver is starting, whoever waits for it goes on waiting, in the same order.
pub proof fn law_waiting_clients_wait_for_a_start<K: FnOnce(CapPtr) -> Result<Endpoint, Error>>(
    keep: K,
    before: ServerState,
    pid: usize,
    endpoint: Option<CapPtr>,
    after: ServerState,
    r: Result<Seq<MountReply>, Error>,
)
    requires
        before.driver_to_partition.contains_key(pid),
        state_reported(keep, before, pid, ServiceState::Starting, endpoint, after, r),
    ensures
        r == Ok::<Seq<MountReply>, Error>(Seq::empty()),
        forall|badge: usize| #[trigger] after.waiters(badge) == before.waiters(badge),
{
    assert(r->Ok_0 =~= Seq::empty());
}

/// A report about one driver leaves those who wait for another alone.
pub proof fn law_reports_concern_one_partition<K: FnOnce(CapPtr) -> Result<Endpoint, Error>>(
    keep: K,
    before: ServerState,
    pid: usize,
    state: ServiceState,
    endpoint: Option<CapPtr>,
    after: ServerState,
    r: Result<Seq<MountReply>, Error>,
    other: usize,
)
    requires
        !before.driver_to_partition.contains_key(pid) || before.driver_to_partition[pid] != other,
        state_reported(keep, before, pid, state, endpoint, after, r),
    ensures
        after.waiters(other) == before.waiters(other),
        after.fs_endpoint(other) == before.fs_endpoint(other),
{
}

/// A partition whose driver runs is mounted at once, and nothing changes.
pub proof fn law_running_driver_is_granted_at_once<H: FnOnce() -> Result<CapPtr, Error>>(
    spawn: SpawnAnswers,
    hold: H,
    before: ServerState,
    name: Seq<char>,
    after: ServerState,
    r: Result<Endpoint, Error>,
)
    requires
        before.consistent(),
        before.names.contains_key(name),
        before.fs_endpoint(before.names[name]) is Some,
        super::configured_driver(
            before.config,
            before.partitions[before.names[name]].fs_type,
        ) is Some,
        mount_requested(spawn, hold, before, name, after, r),
    ensures
        r == Ok::<Endpoint, Error>(before.fs_endpoint(before.names[name])->0),
        after == before,
{
}

/// Reports of drivers keep the bookkeeping.
pub proof fn law_reports_keep_bookkeeping<K: FnOnce(CapPtr) -> Result<Endpoint, Error>>(
    keep: K,
    before: ServerState,
    pid: usize,
    state: ServiceState,
    endpoint: Option<CapPtr>,
    after: ServerState,
    r: Result<Seq<MountReply>, Error>,
)
    requires
        state_reported(keep, before, pid, state, endpoint, after, r),
    ensures
        before.keeps_books(after),
{
}

/// Looking for the driver of a partition that is to be mounted keeps the bookkeeping.
proof fn lemma_driver_for_mount(
    spawn: SpawnAnswers,
    before: ServerState,
    name: Seq<char>,
    after: ServerState,
    r: Result<usize, Error>,
)
    requires
        driver_for_mount(spawn, before, name, after, r),
    ensures
        before.keeps_books(after),
        r matches Ok(badge) ==> after.partitions.contains_key(badge),
{
    let badge = before.names[name];
    if before.names.contains_key(name) && before.partitions.contains_key(badge) {
        let failed = choose|failed: Option<Error>| #[trigger]
            super::driver_ensured(
                spawn,
                badge,
                before.partitions[badge].fs_type,
                before,
                after,
                failed,
            ) && r == (match failed {
                Some(e) => Err::<usize, Error>(e),
                None => Ok::<usize, Error>(badge),
            });
        super::law_drivers_keep_bookkeeping(
            spawn,
            badge,
            before.partitions[badge].fs_type,
            before,
            after,
            failed,
        );
    }
}

/// Requests to mount keep the bookkeeping.
pub proof fn law_mounts_keep_bookkeeping<H: FnOnce() -> Result<CapPtr, Error>>(
    spawn: SpawnAnswers,
    hold: H,
    before: ServerState,
    name: Seq<char>,
    after: ServerState,
    r: Result<Endpoint, Error>,
)
    requires
        mount_requested(spawn, hold, before, name, after, r) || mounted(
            spawn,
            before,
            name,
            after,
            r,
        ),
    ensures
        before.keeps_books(after),
{
    if mounted(spawn, before, name, after, r) {
        let bound = choose|bound: Result<usize, Error>| #[trigger]
            driver_for_mount(spawn, before, name, after, bound);
        lemma_driver_for_mount(spawn, before, name, after, bound);
    } else {
        let (ready, bound) = choose|ready: ServerState, bound: Result<usize, Error>| #[trigger]
            driver_for_mount(spawn, before, name, ready, bound) && match bound {
                Err(e) => after == ready && r == Err::<Endpoint, Error>(e),
                Ok(badge) => match ready.fs_endpoint(badge) {
                    Some(ep) => after == ready && r == Ok::<Endpoint, Error>(ep),
                    None => exists|out: Result<CapPtr, Error>| #[trigger]
                        call_ensures(hold, (), out) && match out {
                            Err(e) => after == ready && r == Err::<Endpoint, Error>(e),
                            Ok(slot) => after == ready.with_waiter(badge, slot) && r == Err::<
                                Endpoint,
                                Error,
                            >(Error::Success),
                        },
                },
            };
        lemma_driver_for_mount(spawn, before, name, ready, bound);
    }
}

/// A driver process means the partition that it serves; any other badge means the partition of
/// that badge, if there is one.
pub proof fn law_badges_mean_partitions(state: ServerState, badge: usize)
    ensures
        state.driver_to_partition.contains_key(badge) ==> state.partition_of(badge) == Some(
            state.driver_to_partition[badge],
        ),
        !state.driver_to_partition.contains_key(badge) && state.partitions.contains_key(badge)
            ==> state.partition_of(badge) == Some(badge),
        !state.driver_to_partition.contains_key(badge) && !state.partitions.contains_key(badge)
            ==> state.partition_of(badge) is None,
{
}

/// An endpoint is made to the partition that a badge means and to no other, and to none if it means
/// none.
pub proof fn law_endpoints_lead_to_the_partition<M: FnOnce(usize) -> Result<Endpoint, Error>>(
    mint: M,
    state: ServerState,
    badge: usize,
    r: Result<Endpoint, Error>,
)
    requires
        device_given(mint, state, badge, r),
    ensures
        state.driver_to_partition.contains_key(badge) ==> call_ensures(
            mint,
            (state.driver_to_partition[badge],),
            r,
        ),
        !state.driver_to_partition.contains_key(badge) && state.partitions.contains_key(badge)
            ==> call_ensures(mint, (badge,), r),
        !state.driver_to_partition.contains_key(badge) && !state.partitions.contains_key(badge)
            ==> r == Err::<Endpoint, Error>(Error::NotFound),
{
}

/// Whoever waits for a driver is put behind those who wait already; nobody else is moved, and
/// nothing else changes.
pub proof fn law_clients_queue_up(state: ServerState, badge: usize, slot: CapPtr, other: usize)
    requires
        other != badge,
    ensures
        ({
            let after = state.with_waiter(badge, slot);
            &&& after.waiters(badge).len() == state.waiters(badge).len() + 1
            &&& after.waiters(badge)[state.waiters(badge).len() as int] == slot
            &&& forall|i: int|
                0 <= i < state.waiters(badge).len() ==> #[trigger] after.waiters(badge)[i]
                    == state.waiters(badge)[i]
            &&& after.waiters(other) == state.waiters(other)
            &&& after == (ServerState { pending_mounts: after.pending_mounts, ..state })
            &&& state.without_waiters(badge).waiters(badge).len() == 0
            &&& state.without_waiters(badge).waiters(other) == state.waiters(other)
        }),
{
}

/// A report of a process that is no driver is refused. That of a driver is noted for its
/// partition; one that runs must hand over its endpoint, which is kept for the partition.
pub proof fn law_reports_are_noted<K: FnOnce(CapPtr) -> Result<Endpoint, Error>>(
    keep: K,
    before: ServerState,
    pid: usize,
    state: ServiceState,
    endpoint: Option<CapPtr>,
    after: ServerState,
    r: Result<Seq<MountReply>, Error>,
)
    requires
        state_reported(keep, before, pid, state, endpoint, after, r),
    ensures
        !before.driver_to_partition.contains_key(pid) ==> r == Err::<Seq<MountReply>, Error>(
            Error::NotFound,
        ) && after == before,
        before.driver_to_partition.contains_key(pid) ==> {
            let badge = before.driver_to_partition[pid];
            &&& after.driver_states.contains_key(badge)
            &&& after.driver_states[badge] == state
            &&& forall|other: usize|
                other != badge ==> (#[trigger] after.driver_states.contains_key(other)
                    == before.driver_states.contains_key(other)) && after.driver_states[other]
                    == before.driver_states[other]
            &&& state != ServiceState::Running ==> r is Ok && after.fs_endpoints
                == before.fs_endpoints
            &&& state == ServiceState::Running && endpoint is None ==> r == Err::<
                Seq<MountReply>,
                Error,
            >(Error::InvalidCapability)
            &&& r is Err ==> after.fs_endpoints == before.fs_endpoints && after.pending_mounts
                == before.pending_mounts
            &&& state == ServiceState::Running && r is Ok ==> {
                &&& endpoint is Some
                &&& after.fs_endpoints.contains_key(badge)
                &&& call_ensures(
                    keep,
                    (endpoint->0,),
                    Ok::<Endpoint, Error>(after.fs_endpoints[badge]),
                )
            }
        },
        after == (ServerState {
            driver_states: after.driver_states,
            fs_endpoints: after.fs_endpoints,
            pending_mounts: after.pending_mounts,
            ..before
        }),
{
}

/// A partition is mounted by its name: an unknown name is refused and nothing changes; where the
/// driver has handed over its endpoint, that is granted; and where it has not, the client is put
/// behind those who wait for this partition. `w` is the server once the driver was looked for, and
/// what became of holding back the reply.
pub proof fn law_partitions_are_mounted_by_name<H: FnOnce() -> Result<CapPtr, Error>>(
    spawn: SpawnAnswers,
    hold: H,
    before: ServerState,
    name: Seq<char>,
    after: ServerState,
    r: Result<Endpoint, Error>,
) -> (w: (ServerState, Result<usize, Error>, Result<CapPtr, Error>))
    requires
        mount_requested(spawn, hold, before, name, after, r),
    ensures
        ({
            let badge = before.names[name];
            let known = before.names.contains_key(name) && before.partitions.contains_key(badge);
            &&& !known ==> r == Err::<Endpoint, Error>(Error::NotFound) && after == before
            &&& driver_for_mount(spawn, before, name, w.0, w.1)
            &&& known && w.1 is Ok ==> w.1->Ok_0 == badge
            &&& w.1 is Err ==> r == Err::<Endpoint, Error>(w.1->Err_0) && after == w.0
            &&& known && w.1 is Ok && w.0.fs_endpoints.contains_key(badge) ==> {
                &&& r == Ok::<Endpoint, Error>(w.0.fs_endpoints[badge])
                &&& after == w.0
            }
            &&& known && w.1 is Ok && !w.0.fs_endpoints.contains_key(badge) ==> {
                &&& call_ensures(hold, (), w.2)
                &&& w.2 is Err ==> r == Err::<Endpoint, Error>(w.2->Err_0) && after == w.0
                &&& w.2 is Ok ==> {
                    &&& r == Err::<Endpoint, Error>(Error::Success)
                    &&& after.waiters(badge) == w.0.waiters(badge).push(w.2->Ok_0)
                    &&& after == (ServerState { pending_mounts: after.pending_mounts, ..w.0 })
                }
            }
        }),
{
    let (ready, bound) = choose|ready: ServerState, bound: Result<usize, Error>| #[trigger]
        driver_for_mount(spawn, before, name, ready, bound) && match bound {
            Err(e) => after == ready && r == Err::<Endpoint, Error>(e),
            Ok(badge) => match ready.fs_endpoint(badge) {
                Some(ep) => after == ready && r == Ok::<Endpoint, Error>(ep),
                None => exists|out: Result<CapPtr, Error>| #[trigger]
                    call_ensures(hold, (), out) && match out {
                        Err(e) => after == ready && r == Err::<Endpoint, Error>(e),
                        Ok(slot) => after == ready.with_waiter(badge, slot) && r == Err::<
                            Endpoint,
                            Error,
                        >(Error::Success),
                    },
            },
        };
    if bound is Ok && ready.fs_endpoint(bound->Ok_0) is None {
        let badge = bound->Ok_0;
        let out = choose|out: Result<CapPtr, Error>| #[trigger]
            call_ensures(hold, (), out) && match out {
                Err(e) => after == ready && r == Err::<Endpoint, Error>(e),
                Ok(slot) => after == ready.with_waiter(badge, slot) && r == Err::<Endpoint, Error>(
                    Error::Success,
                ),
            };
        (ready, bound, out)
    } else {
        (ready, bound, arbitrary())
    }
}

/// A mount that is answered at once grants the endpoint that the partition's driver has handed
/// over, and fails if there is none.
pub proof fn law_mounts_grant_the_endpoint(
    spawn: SpawnAnswers,
    before: ServerState,
    name: Seq<char>,
    after: ServerState,
    r: Result<Endpoint, Error>,
)
    requires
        mounted(spawn, before, name, after, r),
    ensures
        r is Ok ==> {
            let badge = before.names[name];
            &&& before.names.contains_key(name)
            &&& before.partitions.contains_key(badge)
            &&& after.driver_pids.contains_key(badge)
            &&& after.fs_endpoints.contains_key(badge)
            &&& r->Ok_0 == after.fs_endpoints[badge]
        },
        !before.names.contains_key(name) ==> r == Err::<Endpoint, Error>(Error::NotFound) && after
            == before,
        after.fs_endpoints == before.fs_endpoints,
{
}

/// To mount a partition, the driver of the file system that it holds is looked for, under the badge
/// that its name stands for. `failed` is what became of it.
pub proof fn law_mounts_need_the_driver_of_the_file_system(
    spawn: SpawnAnswers,
    before: ServerState,
    name: Seq<char>,
    after: ServerState,
    r: Result<usize, Error>,
) -> (failed: Option<Error>)
    requires
        driver_for_mount(spawn, before, name, after, r),
    ensures
        ({
            let badge = before.names[name];
            let known = before.names.contains_key(name) && before.partitions.contains_key(badge);
            &&& !known ==> r == Err::<usize, Error>(Error::NotFound) && after == before
            &&& known ==> super::driver_ensured(
                spawn,
                badge,
                before.partitions[badge].fs_type,
                before,
                after,
                failed,
            )
            &&& known && failed is None ==> r == Ok::<usize, Error>(badge)
            &&& known && failed is Some ==> r == Err::<usize, Error>(failed->0)
        }),
{
    let badge = before.names[name];
    if before.names.contains_key(name) && before.partitions.contains_key(badge) {
        choose|failed: Option<Error>| #[trigger]
            super::driver_ensured(
                spawn,
                badge,
                before.partitions[badge].fs_type,
                before,
                after,
                failed,
            ) && r == (match failed {
                Some(e) => Err::<usize, Error>(e),
                None => Ok::<usize, Error>(badge),
            })
    } else {
        None
    }
}

/// A probe on request fails if no device is found, and otherwise asks for all devices.
pub proof fn law_probes_need_a_device<
    F: FnOnce() -> Result<Vec<String>, Error>,
    Q: FnOnce() -> Result<Vec<String>, Error>,
>(
    find: F,
    query: Q,
    before: ServerState,
    after: ServerState,
    failed: Option<Error>,
) -> (found: Result<Vec<String>, Error>)
    requires
        probe_asked(find, query, before, after, failed),
    ensures
        call_ensures(find, (), found),
        found is Err ==> failed == Some(found->Err_0) && after == before,
        found is Ok && found->Ok_0@.len() == 0 ==> failed == Some(Error::NotFound) && after
            == before,
        found is Ok && found->Ok_0@.len() > 0 ==> pending::synced(query, before, after, failed),
{
    choose|out: Result<Vec<String>, Error>| #[trigger]
        call_ensures(find, (), out) && match out {
            Err(e) => after == before && failed == Some(e),
            Ok(names) => if names@.len() == 0 {
                after == before && failed == Some(Error::NotFound)
            } else {
                pending::synced(query, before, after, failed)
            },
        }
}

} // verus!
