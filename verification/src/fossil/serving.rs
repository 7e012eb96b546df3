//! Carrying out requests.
use super::pending;
use super::proxy;
use super::server;
use super::server::Request;
use super::volume;
use super::volume::{MountReply, ServiceState};
use super::{FossilServer, ServerState, SpawnAnswers};
use crate::cap::{CapPtr, Endpoint};
use crate::error::Error;
use vstd::prelude::*;

verus! {

/// What there is to attend to.
#[derive(Debug, Clone, Copy, PartialEq, Eq, Structural)]
pub enum Attention {
    /// The answers of devices.
    Answers,
    /// The requests of clients.
    Requests,
}

/// What goes into the answer to a request.
#[derive(Debug, PartialEq, Eq)]
pub enum Answer {
    /// Nothing but that it is done.
    Done,
    /// A capability.
    Cap(CapPtr),
    /// A copy of an endpoint.
    Copy(Endpoint),
    /// Two words.
    Words(usize, usize),
    /// Two words and a capability.
    WordsAndCap(usize, usize, CapPtr),
    /// That it is done, and before that answers to others.
    Woken(Vec<MountReply>),
    /// Nothing, but there is something to attend to, one after the other.
    Attend(Vec<Attention>),
}

/// What goes into the answer to a request, as a mathematical object.
pub enum AnswerView {
    Done,
    Cap(CapPtr),
    Copy(Endpoint),
    Words(usize, usize),
    WordsAndCap(usize, usize, CapPtr),
    Woken(Seq<MountReply>),
    Attend(Seq<Attention>),
}

impl View for Answer {
    type V = AnswerView;

    open spec fn view(&self) -> AnswerView {
        match self {
            Answer::Done => AnswerView::Done,
            Answer::Cap(cap) => AnswerView::Cap(*cap),
            Answer::Copy(endpoint) => AnswerView::Copy(*endpoint),
            Answer::Words(a, b) => AnswerView::Words(*a, *b),
            Answer::WordsAndCap(a, b, cap) => AnswerView::WordsAndCap(*a, *b, *cap),
            Answer::Woken(replies) => AnswerView::Woken(replies@),
            Answer::Attend(steps) => AnswerView::Attend(steps@),
        }
    }
}

/// The answer of a result as a mathematical object.
pub open spec fn answer_seen(r: Result<Answer, Error>) -> Result<AnswerView, Error> {
    match r {
        Ok(answer) => Ok(answer@),
        Err(e) => Err(e),
    }
}

/// What a message carries besides its registers: a name, and the state of a driver.
pub struct Payload {
    pub name: String,
    pub state: ServiceState,
}

/// What the server needs of the world to carry out a request of the client with `badge`: the
/// closures that the request calls for may be called with what it calls for.
pub open spec fn equipped<
    M: FnOnce(usize) -> Result<Endpoint, Error>,
    F: FnOnce() -> Result<Vec<String>, Error>,
    Q: FnOnce() -> Result<Vec<String>, Error>,
    K: FnOnce(CapPtr) -> Result<Endpoint, Error>,
    S: FnOnce(String) -> Result<usize, Error>,
    H: FnOnce() -> Result<CapPtr, Error>,
    A: FnOnce(usize, u32, u32) -> Result<CapPtr, Error>,
>(
    mint: M,
    find: F,
    query: Q,
    keep: K,
    spawn: S,
    hold: H,
    alloc: A,
    request: Request,
    badge: usize,
    payload: Payload,
    state: ServerState,
) -> bool {
    match request {
        Request::GetDevice { badge: meant } => volume::mints(mint, state, meant),
        Request::ProbeDevice => volume::searches(find, query),
        Request::ReportState { state: _, endpoint } => volume::keeps(
            keep,
            state,
            badge,
            payload.state,
            endpoint,
        ),
        Request::MountPartition => volume::mounts(spawn, hold, state, payload.name@),
        Request::SetupRing { sq_entries, cq_entries } => proxy::makes_ring(
            alloc,
            state,
            badge,
            sq_entries,
            cq_entries,
        ),
        Request::Notify { hook, cq: _, sq: _ } => hook ==> call_requires(query, ()),
        _ => true,
    }
}

/// A request of the client with `badge` was carried out.
pub open spec fn request_served<
    M: FnOnce(usize) -> Result<Endpoint, Error>,
    F: FnOnce() -> Result<Vec<String>, Error>,
    Q: FnOnce() -> Result<Vec<String>, Error>,
    K: FnOnce(CapPtr) -> Result<Endpoint, Error>,
    H: FnOnce() -> Result<CapPtr, Error>,
    A: FnOnce(usize, u32, u32) -> Result<CapPtr, Error>,
>(
    mint: M,
    find: F,
    query: Q,
    keep: K,
    spawn: SpawnAnswers,
    hold: H,
    alloc: A,
    request: Request,
    badge: usize,
    payload: Payload,
    before: ServerState,
    after: ServerState,
    r: Result<AnswerView, Error>,
) -> bool {
    match request {
        Request::GetDevice { badge: meant } => {
            &&& after == before
            &&& exists|out: Result<Endpoint, Error>| #[trigger]
                volume::device_given(mint, before, meant, out) && r == (match out {
                    Ok(ep) => Ok::<AnswerView, Error>(AnswerView::Cap(ep)),
                    Err(e) => Err::<AnswerView, Error>(e),
                })
        },
        Request::ProbeDevice => {
            exists|failed: Option<Error>| #[trigger]
                volume::probe_asked(find, query, before, after, failed) && r == done_or(failed)
        },
        Request::ReportState { state: _, endpoint } => {
            exists|out: Result<Seq<MountReply>, Error>| #[trigger]
                volume::state_reported(
                    keep,
                    before,
                    badge,
                    payload.state,
                    endpoint,
                    after,
                    out,
                ) && r == (match out {
                    Ok(replies) => Ok::<AnswerView, Error>(AnswerView::Woken(replies)),
                    Err(e) => Err::<AnswerView, Error>(e),
                })
        },
        Request::MountPartition => {
            exists|out: Result<Endpoint, Error>| #[trigger]
                volume::mount_requested(spawn, hold, before, payload.name@, after, out) && r == (
                match out {
                    Ok(ep) => Ok::<AnswerView, Error>(AnswerView::Copy(ep)),
                    Err(e) => Err::<AnswerView, Error>(e),
                })
        },
        Request::GetInfo => {
            &&& after == before
            &&& r == (match server::volume_info(before, badge) {
                Ok(info) => Ok::<AnswerView, Error>(
                    AnswerView::Words(info.block_size, info.num_blocks),
                ),
                Err(e) => Err::<AnswerView, Error>(e),
            })
        },
        Request::SetupRing { sq_entries, cq_entries } => {
            exists|out: Result<CapPtr, Error>| #[trigger]
                proxy::ring_set_up(alloc, badge, sq_entries, cq_entries, before, after, out) && r
                    == (match out {
                    Ok(frame) => Ok::<AnswerView, Error>(AnswerView::Cap(frame)),
                    Err(e) => Err::<AnswerView, Error>(e),
                })
        },
        Request::AcquireShm => {
            &&& after == before
            &&& r == (match proxy::acquired(before) {
                Ok(shm) => Ok::<AnswerView, Error>(
                    AnswerView::WordsAndCap(shm.vaddr, shm.size, shm.frame),
                ),
                Err(e) => Err::<AnswerView, Error>(e),
            })
        },
        Request::RegisterShm { vaddr, size } => {
            exists|failed: Option<Error>| #[trigger]
                proxy::shm_registered(badge, vaddr, size, before, after, failed) && r == done_or(
                    failed,
                )
        },
        Request::Notify { hook, cq, sq } => {
            &&& r == Ok::<AnswerView, Error>(AnswerView::Attend(attention(cq, sq)))
            &&& if hook {
                exists|failed: Option<Error>| #[trigger]
                    pending::synced(query, before, after, failed)
            } else {
                after == before
            }
        },
    }
}

/// What a notification asks to attend to: answers come before requests.
pub open spec fn attention(cq: bool, sq: bool) -> Seq<Attention> {
    if cq && sq {
        seq![Attention::Answers, Attention::Requests]
    } else if cq {
        seq![Attention::Answers]
    } else if sq {
        seq![Attention::Requests]
    } else {
        Seq::empty()
    }
}

fn to_attend(cq: bool, sq: bool) -> (steps: Vec<Attention>)
    ensures
        steps@ == attention(cq, sq),
{
    let mut steps: Vec<Attention> = Vec::new();
    if cq {
        steps.push(Attention::Answers);
    }
    if sq {
        steps.push(Attention::Requests);
    }
    assert(steps@ =~= attention(cq, sq));
    steps
}

/// What is to be done next about what there is to attend to.
#[derive(Debug, Clone, Copy, PartialEq, Eq)]
pub enum AttentionAction {
    /// Attend to something.
    Attend(Attention),
    /// End it.
    End(Result<(), Error>),
}

/// Decides what follows once the first `done` of the steps were attended to, the last with some
/// outcome: whatever that was, the next step; and after the last nobody waits for an answer, which
/// `Error::Success` tells.
pub fn next_attention(steps: &Vec<Attention>, done: usize, _outcome: Result<(), Error>) -> (r:
    AttentionAction)
    ensures
        r == (if done < steps@.len() {
            AttentionAction::Attend(steps@[done as int])
        } else {
            AttentionAction::End(Err::<(), Error>(Error::Success))
        }),
{
    if done < steps.len() {
        AttentionAction::Attend(steps[done])
    } else {
        AttentionAction::End(Err(Error::Success))
    }
}

/// That a request is done, or why not.
pub open spec fn done_or(failed: Option<Error>) -> Result<AnswerView, Error> {
    match failed {
        None => Ok(AnswerView::Done),
        Some(e) => Err(e),
    }
}

impl FossilServer {
    /// Carries out a request of the client with `badge`. Devices that cannot be asked for on a
    /// notification are left for the next one.
    pub fn serve<
        M: FnOnce(usize) -> Result<Endpoint, Error>,
        F: FnOnce() -> Result<Vec<String>, Error>,
        Q: FnOnce() -> Result<Vec<String>, Error>,
        K: FnOnce(CapPtr) -> Result<Endpoint, Error>,
        S: FnOnce(String) -> Result<usize, Error>,
        H: FnOnce() -> Result<CapPtr, Error>,
        A: FnOnce(usize, u32, u32) -> Result<CapPtr, Error>,
    >(
        &mut self,
        request: Request,
        badge: usize,
        payload: &Payload,
        mint: M,
        find: F,
        query: Q,
        keep: K,
        spawn: S,
        hold: H,
        alloc: A,
    ) -> (r: Result<Answer, Error>)
        requires
            old(self).wf(),
            equipped(
                mint,
                find,
                query,
                keep,
                spawn,
                hold,
                alloc,
                request,
                badge,
                *payload,
                old(self)@,
            ),
        ensures
            final(self).wf(),
            request_served(
                mint,
                find,
                query,
                keep,
                super::spawn_answers(spawn),
                hold,
                alloc,
                request,
                badge,
                *payload,
                old(self)@,
                final(self)@,
                answer_seen(r),
            ),
    {
        match request {
            Request::GetDevice { badge: meant } => {
                let out = self.get_device(meant, mint);
                assert(volume::device_given(mint, old(self)@, meant, out));
                match out {
                    Ok(ep) => Ok(Answer::Cap(ep)),
                    Err(e) => Err(e),
                }
            },
            Request::ProbeDevice => {
                let out = self.probe_device(find, query);
                assert(volume::probe_asked(
                    find,
                    query,
                    old(self)@,
                    self@,
                    super::failure(out),
                ));
                match out {
                    Ok(_) => Ok(Answer::Done),
                    Err(e) => Err(e),
                }
            },
            Request::ReportState { state: _, endpoint } => {
                let out = self.report_state(badge, payload.state, endpoint, keep);
                assert(volume::state_reported(
                    keep,
                    old(self)@,
                    badge,
                    payload.state,
                    endpoint,
                    self@,
                    volume::replies_of(out),
                ));
                match out {
                    Ok(replies) => Ok(Answer::Woken(replies)),
                    Err(e) => Err(e),
                }
            },
            Request::MountPartition => {
                let out = self.handle_mount_partition_request(payload.name.as_str(), spawn, hold);
                assert(volume::mount_requested(
                    super::spawn_answers(spawn),
                    hold,
                    old(self)@,
                    payload.name@,
                    self@,
                    out,
                ));
                match out {
                    Ok(ep) => Ok(Answer::Copy(ep)),
                    Err(e) => Err(e),
                }
            },
            Request::GetInfo => {
                match self.get_info(badge) {
                    Ok(info) => Ok(Answer::Words(info.block_size, info.num_blocks)),
                    Err(e) => Err(e),
                }
            },
            Request::SetupRing { sq_entries, cq_entries } => {
                let out = self.handle_setup_ring(badge, sq_entries, cq_entries, alloc);
                assert(proxy::ring_set_up(
                    alloc,
                    badge,
                    sq_entries,
                    cq_entries,
                    old(self)@,
                    self@,
                    out,
                ));
                match out {
                    Ok(frame) => Ok(Answer::Cap(frame)),
                    Err(e) => Err(e),
                }
            },
            Request::AcquireShm => {
                match self.handle_acquire_shm() {
                    Ok(shm) => Ok(Answer::WordsAndCap(shm.vaddr, shm.size, shm.frame)),
                    Err(e) => Err(e),
                }
            },
            Request::RegisterShm { vaddr, size } => {
                let out = self.handle_register_shm(badge, vaddr, size);
                assert(proxy::shm_registered(
                    badge,
                    vaddr,
                    size,
                    old(self)@,
                    self@,
                    super::failure(out),
                ));
                match out {
                    Ok(_) => Ok(Answer::Done),
                    Err(e) => Err(e),
                }
            },
            Request::Notify { hook, cq, sq } => {
                if hook {
                    let synced = self.handle_notify_sync(query);
                    assert(pending::synced(
                        query,
                        old(self)@,
                        self@,
                        super::failure(synced),
                    ));
                }
                Ok(Answer::Attend(to_attend(cq, sq)))
            },
        }
    }
}

/// Carrying out requests keeps the bookkeeping.
pub proof fn law_requests_keep_bookkeeping<
    M: FnOnce(usize) -> Result<Endpoint, Error>,
    F: FnOnce() -> Result<Vec<String>, Error>,
    Q: FnOnce() -> Result<Vec<String>, Error>,
    K: FnOnce(CapPtr) -> Result<Endpoint, Error>,
    H: FnOnce() -> Result<CapPtr, Error>,
    A: FnOnce(usize, u32, u32) -> Result<CapPtr, Error>,
>(
    mint: M,
    find: F,
    query: Q,
    keep: K,
    spawn: SpawnAnswers,
    hold: H,
    alloc: A,
    request: Request,
    badge: usize,
    payload: Payload,
    before: ServerState,
    after: ServerState,
    r: Result<AnswerView, Error>,
)
    requires
        request_served(
            mint,
            find,
            query,
            keep,
            spawn,
            hold,
            alloc,
            request,
            badge,
            payload,
            before,
            after,
            r,
        ),
    ensures
        before.keeps_books(after),
{
    match request {
        Request::ReportState { state: _, endpoint } => {
            let out = choose|out: Result<Seq<MountReply>, Error>| #[trigger]
                volume::state_reported(keep, before, badge, payload.state, endpoint, after, out);
            volume::law_reports_keep_bookkeeping(
                keep,
                before,
                badge,
                payload.state,
                endpoint,
                after,
                out,
            );
        },
        Request::MountPartition => {
            let out = choose|out: Result<Endpoint, Error>| #[trigger]
                volume::mount_requested(spawn, hold, before, payload.name@, after, out);
            volume::law_mounts_keep_bookkeeping(
                spawn,
                hold,
                before,
                payload.name@,
                after,
                out,
            );
        },
        _ => {},
    }
}

/// A notification asks to attend to answers if there are any, and to requests if there are any, to
/// each once, and to answers first.
pub proof fn law_attention_is_paid_once(cq: bool, sq: bool)
    ensures
        attention(cq, sq).contains(Attention::Answers) <==> cq,
        attention(cq, sq).contains(Attention::Requests) <==> sq,
        attention(cq, sq).len() <= 2,
        cq && sq ==> attention(cq, sq).len() == 2 && attention(cq, sq)[0] == Attention::Answers,
        cq != sq ==> attention(cq, sq).len() == 1,
        !cq && !sq ==> attention(cq, sq).len() == 0,
{
    let steps = attention(cq, sq);
    if cq {
        assert(steps[0] == Attention::Answers);
    }
    if sq {
        assert(steps[steps.len() - 1] == Attention::Requests);
    }
}

/// Questions change nothing, and are answered with what was asked for: of a partition its block
/// size and number of blocks, of the global buffer its address, its size and its frame.
pub proof fn law_questions_are_answered<
    M: FnOnce(usize) -> Result<Endpoint, Error>,
    F: FnOnce() -> Result<Vec<String>, Error>,
    Q: FnOnce() -> Result<Vec<String>, Error>,
    K: FnOnce(CapPtr) -> Result<Endpoint, Error>,
    H: FnOnce() -> Result<CapPtr, Error>,
    A: FnOnce(usize, u32, u32) -> Result<CapPtr, Error>,
>(
    mint: M,
    find: F,
    query: Q,
    keep: K,
    spawn: SpawnAnswers,
    hold: H,
    alloc: A,
    request: Request,
    badge: usize,
    payload: Payload,
    before: ServerState,
    after: ServerState,
    r: Result<AnswerView, Error>,
)
    requires
        request_served(
            mint,
            find,
            query,
            keep,
            spawn,
            hold,
            alloc,
            request,
            badge,
            payload,
            before,
            after,
            r,
        ),
    ensures
        request is GetInfo || request is AcquireShm || request is GetDevice ==> after == before,
        request is GetInfo && !before.partitions.contains_key(badge) ==> r == Err::<
            AnswerView,
            Error,
        >(Error::NotFound),
        request is GetInfo && before.partitions.contains_key(badge) ==> {
            let meta = before.partitions[badge].meta;
            &&& r is Ok
            &&& r->Ok_0 is Words
            &&& r->Ok_0->Words_0 == meta.block_size
            &&& meta.num_blocks <= usize::MAX ==> r->Ok_0->Words_1 == meta.num_blocks
        },
        request is AcquireShm && before.global_shm is None ==> r == Err::<AnswerView, Error>(
            Error::NotInitialized,
        ),
        request is AcquireShm && before.global_shm is Some ==> {
            let shm = before.global_shm->0;
            &&& r is Ok
            &&& r->Ok_0 is WordsAndCap
            &&& r->Ok_0->WordsAndCap_0 == shm.vaddr
            &&& r->Ok_0->WordsAndCap_1 == shm.size
            &&& r->Ok_0->WordsAndCap_2 == shm.frame
        },
        request matches Request::Notify { hook, cq, sq } ==> {
            &&& r is Ok
            &&& r->Ok_0 is Attend
            &&& r->Ok_0->Attend_0.contains(Attention::Answers) <==> cq
            &&& r->Ok_0->Attend_0.contains(Attention::Requests) <==> sq
            &&& !hook ==> after == before
        },
        request matches Request::RegisterShm { vaddr, size } ==> {
            &&& r is Ok <==> before.global_shm is Some
            &&& r is Ok ==> after.client_shms.contains_key(badge)
            &&& r is Ok ==> after.client_shms[badge].vaddr == vaddr
            &&& r is Ok ==> after.client_shms[badge].size == size
            &&& r is Err ==> after == before
        },
{
    if let Request::Notify { hook, cq, sq } = request {
        law_attention_is_paid_once(cq, sq);
    }
}

/// What a request brings is what its answer carries: an endpoint or a frame as a capability, the
/// endpoint of a mounted partition as a copy, and the replies to those who waited; a failure is
/// passed on as it is.
pub proof fn law_results_are_passed_on<
    M: FnOnce(usize) -> Result<Endpoint, Error>,
    F: FnOnce() -> Result<Vec<String>, Error>,
    Q: FnOnce() -> Result<Vec<String>, Error>,
    K: FnOnce(CapPtr) -> Result<Endpoint, Error>,
    H: FnOnce() -> Result<CapPtr, Error>,
    A: FnOnce(usize, u32, u32) -> Result<CapPtr, Error>,
>(
    mint: M,
    find: F,
    query: Q,
    keep: K,
    spawn: SpawnAnswers,
    hold: H,
    alloc: A,
    request: Request,
    badge: usize,
    payload: Payload,
    before: ServerState,
    after: ServerState,
    r: Result<AnswerView, Error>,
)
    requires
        request_served(
            mint,
            find,
            query,
            keep,
            spawn,
            hold,
            alloc,
            request,
            badge,
            payload,
            before,
            after,
            r,
        ),
    ensures
        request matches Request::GetDevice { badge: meant } ==> {
            &&& r is Ok ==> r->Ok_0 is Cap && volume::device_given(
                mint,
                before,
                meant,
                Ok::<Endpoint, Error>(r->Ok_0->Cap_0),
            )
            &&& r is Err ==> volume::device_given(
                mint,
                before,
                meant,
                Err::<Endpoint, Error>(r->Err_0),
            )
        },
        request is ProbeDevice ==> {
            &&& r is Ok ==> r->Ok_0 is Done && volume::probe_asked(find, query, before, after, None)
            &&& r is Err ==> volume::probe_asked(find, query, before, after, Some(r->Err_0))
        },
        request matches Request::ReportState { state: _, endpoint } ==> {
            &&& r is Ok ==> r->Ok_0 is Woken && volume::state_reported(
                keep,
                before,
                badge,
                payload.state,
                endpoint,
                after,
                Ok::<Seq<MountReply>, Error>(r->Ok_0->Woken_0),
            )
            &&& r is Err ==> volume::state_reported(
                keep,
                before,
                badge,
                payload.state,
                endpoint,
                after,
                Err::<Seq<MountReply>, Error>(r->Err_0),
            )
        },
        request is MountPartition ==> {
            &&& r is Ok ==> r->Ok_0 is Copy && volume::mount_requested(
                spawn,
                hold,
                before,
                payload.name@,
                after,
                Ok::<Endpoint, Error>(r->Ok_0->Copy_0),
            )
            &&& r is Err ==> volume::mount_requested(
                spawn,
                hold,
                before,
                payload.name@,
                after,
                Err::<Endpoint, Error>(r->Err_0),
            )
        },
        request matches Request::SetupRing { sq_entries, cq_entries } ==> {
            &&& r is Ok ==> r->Ok_0 is Cap && proxy::ring_set_up(
                alloc,
                badge,
                sq_entries,
                cq_entries,
                before,
                after,
                Ok::<CapPtr, Error>(r->Ok_0->Cap_0),
            )
            &&& r is Err ==> proxy::ring_set_up(
                alloc,
                badge,
                sq_entries,
                cq_entries,
                before,
                after,
                Err::<CapPtr, Error>(r->Err_0),
            )
        },
        request matches Request::Notify { hook, cq: _, sq: _ } ==> (hook
            ==> exists|failed: Option<Error>| #[trigger]
            pending::synced(query, before, after, failed)),
{
}

} // verus!
