//! Partitions, and the requests that pass through them to their devices.
use super::buffer;
use super::buffer::{
    BufferInfo, CacheResult, CacheState, IOBufferManager, IoUringSqe, RequestContext,
};
use super::coherence;
use super::reader::{DeviceAnswers, Store};
use super::{FossilServer, ServerState, HARDWARE_REQUEST};
use crate::cap::{CapPtr, Endpoint, ShmParams, CAP_NULL};
use crate::error::Error;
use crate::probe::fs::FileSystemType;
use vstd::prelude::*;

verus! {

/// Where a partition lies on its device.
#[derive(Debug, Clone, Copy, PartialEq, Eq, Structural)]
pub struct PartitionMetadata {
    /// The device.
    pub parent: u64,
    pub start_lba: u64,
    pub num_blocks: u64,
    pub block_size: u32,
}

/// A partition of a device.
pub struct PartitionProxy {
    pub meta: PartitionMetadata,
    pub hardware_ep: Endpoint,
    pub name: String,
    pub fs_type: FileSystemType,
    pub hardware_badge: usize,
}

/// A partition as a mathematical object.
#[verifier::ext_equal]
pub struct PartitionView {
    pub meta: PartitionMetadata,
    pub hardware_ep: Endpoint,
    pub name: Seq<char>,
    pub fs_type: FileSystemType,
    pub hardware_badge: usize,
}

impl View for PartitionProxy {
    type V = PartitionView;

    open spec fn view(&self) -> PartitionView {
        PartitionView {
            meta: self.meta,
            hardware_ep: self.hardware_ep,
            name: self.name@,
            fs_type: self.fs_type,
            hardware_badge: self.hardware_badge,
        }
    }
}

/// The unit in which request offsets count the start of a partition.
pub const OFFSET_UNIT: u64 = 512;

/// A request with its offset in the partition turned into an offset on the device.
pub open spec fn translated(meta: PartitionMetadata, sqe: IoUringSqe) -> IoUringSqe {
    IoUringSqe { off: (sqe.off + meta.start_lba * OFFSET_UNIT) as usize, ..sqe }
}

impl PartitionProxy {
    /// A partition.
    pub fn new(
        meta: PartitionMetadata,
        hardware_ep: Endpoint,
        name: String,
        fs_type: FileSystemType,
        hardware_badge: usize,
    ) -> (r: PartitionProxy)
        ensures
            r@ == (PartitionView { meta, hardware_ep, name: name@, fs_type, hardware_badge }),
    {
        PartitionProxy { meta, hardware_ep, name, fs_type, hardware_badge }
    }

    /// Turns an offset in the partition into an offset on the device.
    pub fn translate_sqe(&self, sqe: &mut IoUringSqe)
        requires
            old(sqe).off + self.meta.start_lba * OFFSET_UNIT <= usize::MAX,
            self.meta.start_lba * OFFSET_UNIT <= u64::MAX,
        ensures
            *final(sqe) == translated(self.meta, *old(sqe)),
            final(sqe).off - old(sqe).off == 512 * self.meta.start_lba,
            final(sqe).opcode == old(sqe).opcode,
            final(sqe).addr == old(sqe).addr,
            final(sqe).len == old(sqe).len,
            final(sqe).user_data == old(sqe).user_data,
    {
        sqe.off = sqe.off + (self.meta.start_lba * OFFSET_UNIT) as usize;
    }
}

/// What a client is told of the global buffer. Its physical address is not among it.
#[derive(Debug, Clone, Copy, PartialEq, Eq, Structural)]
pub struct AcquiredShm {
    pub vaddr: usize,
    pub size: usize,
    pub frame: CapPtr,
}

/// The device that the requests of a client go to.
#[derive(Debug, Clone, Copy, PartialEq, Eq, Structural)]
pub struct SqRoute {
    pub hw_id: usize,
    pub block_size: u32,
}

/// The answer to a request, and whose it is.
#[derive(Debug, Clone, Copy, PartialEq, Eq, Structural)]
pub struct Completion {
    pub client_badge: usize,
    pub user_data: usize,
    pub res: i32,
}

/// The size of a ring with so many entries each way: a header, and the entries.
pub open spec fn ring_size(sq_entries: u32, cq_entries: u32) -> int {
    64 + sq_entries * 64 + cq_entries * 16
}

/// The offset at which the blocks start that hold the byte at `off`.
pub open spec fn blocks_start(off: usize, block_size: u32) -> usize {
    off & !((block_size - 1) as usize)
}

/// The offset at which the blocks end that hold the `len` bytes from `off` on.
pub open spec fn blocks_end(off: usize, len: u32, block_size: u32) -> usize {
    ((off + len + block_size - 1) as usize) & !((block_size - 1) as usize)
}

/// How a request is widened to whole blocks, in cache block `idx`.
pub open spec fn widened(
    req: IoUringSqe,
    block_size: u32,
    op_write: u8,
    idx: usize,
) -> BufferInfo {
    BufferInfo {
        original_addr: req.addr,
        original_len: req.len,
        original_offset: req.off,
        aligned_offset: blocks_start(req.off, block_size),
        aligned_len: (blocks_end(req.off, req.len, block_size) - blocks_start(
            req.off,
            block_size,
        )) as u32,
        is_write: req.opcode == op_write,
        is_rmw: req.opcode == op_write,
        cache_idx: Some(idx),
    }
}

/// What a client is answered where the device answered `res`: of a widened request that went
/// well, the length that it asked for.
pub open spec fn answer_of(ctx: RequestContext, res: i32) -> i32 {
    match ctx.buffer_info {
        Some(info) => if res >= 0 {
            info.original_len as i32
        } else {
            res
        },
        None => res,
    }
}

impl ServerState {
    /// The device that the requests of a client go to: that of its partition, if the server is
    /// connected to it and both have a ring.
    pub open spec fn route(self, badge: usize) -> Result<SqRoute, Error> {
        let hw_id = self.partitions[badge].meta.parent as usize;
        if !self.partitions.contains_key(badge) || !self.device_clients.contains_key(hw_id) {
            Err(Error::NotFound)
        } else if !self.device_clients[hw_id].has_ring || !self.client_rings.contains(badge) {
            Err(Error::NotInitialized)
        } else {
            Ok(SqRoute { hw_id, block_size: self.device_clients[hw_id].block_size })
        }
    }

    /// Whether an address lies in the buffer that a client registered.
    pub open spec fn in_client_shm(self, badge: usize, addr: usize) -> bool {
        self.client_shms.contains_key(badge) && self.client_shms[badge].vaddr <= addr
            < self.client_shms[badge].vaddr + self.client_shms[badge].size
    }

    /// A request of a client as the device is to see it: at its offset on the device, and with its
    /// address in the global buffer.
    pub open spec fn device_request(self, badge: usize, sqe: IoUringSqe) -> IoUringSqe {
        let req = translated(self.partitions[badge].meta, sqe);
        if self.in_client_shm(badge, sqe.addr) && self.global_shm is Some {
            IoUringSqe {
                addr: (self.global_shm->0.vaddr + (sqe.addr
                    - self.client_shms[badge].vaddr)) as usize,
                ..req
            }
        } else {
            req
        }
    }

    /// Whether the numbers of a request stay within the machine's: its offset on the device, its
    /// address in the global buffer, and its end in whole blocks. A request that is not aligned
    /// also needs the cache to have blocks.
    pub open spec fn can_submit(self, badge: usize, sqe: IoUringSqe) -> bool {
        let meta = self.partitions[badge].meta;
        let route = self.route(badge);
        &&& route is Ok
        &&& route->Ok_0.block_size > 0
        &&& meta.start_lba * OFFSET_UNIT <= u64::MAX
        &&& sqe.off + meta.start_lba * OFFSET_UNIT <= usize::MAX
        &&& self.client_shms.contains_key(badge) && self.client_shms[badge].vaddr <= sqe.addr
            ==> self.client_shms[badge].vaddr + self.client_shms[badge].size <= usize::MAX
        &&& self.in_client_shm(badge, sqe.addr) && self.global_shm is Some
            ==> self.global_shm->0.vaddr + (sqe.addr - self.client_shms[badge].vaddr)
            <= usize::MAX
        &&& !IOBufferManager::aligned(self.device_request(badge, sqe), route->Ok_0.block_size) ==> {
            &&& self.device_request(badge, sqe).off + sqe.len + route->Ok_0.block_size - 1
                <= usize::MAX
            &&& self.cache.blocks.len() > 0
            &&& self.cache.addressable()
        }
    }

    /// The number that the next request to a device gets.
    pub open spec fn request_number(self) -> usize {
        self.next_badge | HARDWARE_REQUEST
    }

    /// The server with one more request in flight.
    pub open spec fn with_request(self, ctx: RequestContext) -> ServerState {
        ServerState {
            next_badge: self.next_badge.wrapping_add(1),
            inflight: self.inflight.insert(self.request_number(), ctx),
            ..self
        }
    }
}

/// A request of a client was turned into a request to its device. If it is aligned to blocks, it
/// goes there as it is; otherwise it is widened to whole blocks in a block of the cache.
pub open spec fn submitted(
    before: ServerState,
    badge: usize,
    sqe: IoUringSqe,
    op_write: u8,
    after: ServerState,
    out: IoUringSqe,
) -> bool {
    let route = before.route(badge)->Ok_0;
    let req = before.device_request(badge, sqe);
    let start = blocks_start(req.off, route.block_size);
    let sector = (start as int / route.block_size as int) as usize;
    let ctx = RequestContext {
        client_badge: badge,
        client_user_data: sqe.user_data,
        buffer_info: None,
    };
    if IOBufferManager::aligned(req, route.block_size) {
        &&& after == before.with_request(ctx)
        &&& out == (IoUringSqe { user_data: before.request_number(), ..req })
    } else {
        exists|cache: CacheState, res: CacheResult|
            {
                let info = widened(req, route.block_size, op_write, res.block_idx);
                &&& #[trigger] before.cache.accessed(
                    (route.hw_id, sector),
                    cache,
                    res,
                )
                &&& after == (ServerState { cache, ..before }).with_request(
                    RequestContext { buffer_info: Some(info), ..ctx },
                )
                &&& out == (IoUringSqe {
                    addr: res.buf_vaddr,
                    off: info.aligned_offset,
                    len: info.aligned_len,
                    user_data: before.request_number(),
                    ..req
                })
            }
    }
}

/// A device answered a request: it is no longer in flight, and if its client still has a ring, the
/// client is answered. An answer to no request is dropped.
pub open spec fn completed(
    before: ServerState,
    user_data: usize,
    res: i32,
    after: ServerState,
    r: Option<Completion>,
) -> bool {
    if !before.inflight.contains_key(user_data) {
        after == before && r is None
    } else {
        let ctx = before.inflight[user_data];
        &&& after == (ServerState { inflight: before.inflight.remove(user_data), ..before })
        &&& r == (if before.client_rings.contains(ctx.client_badge) {
            Some(
                Completion {
                    client_badge: ctx.client_badge,
                    user_data: ctx.client_user_data,
                    res: answer_of(ctx, res),
                },
            )
        } else {
            None
        })
    }
}

/// What a client is told of the global buffer, once there is one.
pub open spec fn acquired(state: ServerState) -> Result<AcquiredShm, Error> {
    match state.global_shm {
        Some(shm) => Ok(AcquiredShm { vaddr: shm.vaddr, size: shm.size, frame: shm.frame }),
        None => Err(Error::NotInitialized),
    }
}

/// A note was made of where a client has mapped the global buffer, without its physical address.
pub open spec fn shm_registered(
    badge: usize,
    vaddr: usize,
    size: usize,
    before: ServerState,
    after: ServerState,
    failed: Option<Error>,
) -> bool {
    match before.global_shm {
        Some(shm) => failed is None && after == (ServerState {
            client_shms: before.client_shms.insert(
                badge,
                ShmParams { frame: shm.frame, vaddr, paddr: 0, size, recv_slot: CAP_NULL },
            ),
            ..before
        }),
        None => failed == Some(Error::NotInitialized) && after == before,
    }
}

/// A ring was made for a client that had none.
pub open spec fn ring_set_up<A: FnOnce(usize, u32, u32) -> Result<CapPtr, Error>>(
    alloc: A,
    badge: usize,
    sq_entries: u32,
    cq_entries: u32,
    before: ServerState,
    after: ServerState,
    r: Result<CapPtr, Error>,
) -> bool {
    if before.client_rings.contains(badge) {
        r == Err::<CapPtr, Error>(Error::AlreadyExists) && after == before
    } else {
        &&& call_ensures(
            alloc,
            (ring_size(sq_entries, cq_entries) as usize, sq_entries, cq_entries),
            r,
        )
        &&& after == (match r {
            Ok(_) => ServerState { client_rings: before.client_rings.insert(badge), ..before },
            Err(_) => before,
        })
    }
}

/// What is needed of the closure that makes rings: it may be asked for the ring of a client that
/// has none.
pub open spec fn makes_ring<A: FnOnce(usize, u32, u32) -> Result<CapPtr, Error>>(
    alloc: A,
    state: ServerState,
    badge: usize,
    sq_entries: u32,
    cq_entries: u32,
) -> bool {
    !state.client_rings.contains(badge) ==> {
        &&& ring_size(sq_entries, cq_entries) <= usize::MAX
        &&& call_requires(
            alloc,
            (ring_size(sq_entries, cq_entries) as usize, sq_entries, cq_entries),
        )
    }
}

impl FossilServer {
    /// Tells a client of the global buffer, but not its physical address.
    pub fn handle_acquire_shm(&self) -> (r: Result<AcquiredShm, Error>)
        ensures
            r == acquired(self@),
    {
        match self.global_shm {
            Some(shm) => Ok(AcquiredShm { vaddr: shm.vaddr, size: shm.size, frame: shm.frame }),
            None => Err(Error::NotInitialized),
        }
    }

    /// Takes note of where a client has mapped the global buffer. The physical address is kept
    /// from it.
    pub fn handle_register_shm(
        &mut self,
        badge: usize,
        client_vaddr: usize,
        client_size: usize,
    ) -> (r: Result<(), Error>)
        ensures
            old(self).wf() ==> final(self).wf(),
            old(self)@.keeps_books(final(self)@),
            shm_registered(
                badge,
                client_vaddr,
                client_size,
                old(self)@,
                final(self)@,
                super::failure(r),
            ),
    {
        match self.global_shm {
            Some(shm) => {
                let params = ShmParams {
                    frame: shm.frame,
                    vaddr: client_vaddr,
                    paddr: 0,
                    size: client_size,
                    recv_slot: CAP_NULL,
                };
                self.client_shms.insert(badge, params);
                assert(self@ =~= (ServerState {
                    client_shms: old(self)@.client_shms.insert(badge, params),
                    ..old(self)@
                }));
                Ok(())
            },
            None => Err(Error::NotInitialized),
        }
    }

    /// Makes a ring for a client that has none, with `alloc` to allocate it.
    pub fn handle_setup_ring<A: FnOnce(usize, u32, u32) -> Result<CapPtr, Error>>(
        &mut self,
        badge: usize,
        sq_entries: u32,
        cq_entries: u32,
        alloc: A,
    ) -> (r: Result<CapPtr, Error>)
        requires
            makes_ring(alloc, old(self)@, badge, sq_entries, cq_entries),
        ensures
            old(self).wf() ==> final(self).wf(),
            old(self)@.keeps_books(final(self)@),
            ring_set_up(
                alloc,
                badge,
                sq_entries,
                cq_entries,
                old(self)@,
                final(self)@,
                r,
            ),
    {
        if self.client_rings.contains(&badge) {
            return Err(Error::AlreadyExists);
        }
        let size: usize = 64 + sq_entries as usize * 64 + cq_entries as usize * 16;
        let out = alloc(size, sq_entries, cq_entries);
        assert(call_ensures(alloc, (size, sq_entries, cq_entries), out));
        match out {
            Ok(frame) => {
                self.client_rings.insert(badge);
                assert(self@ =~= (ServerState { client_rings: self@.client_rings, ..old(self)@ }));
                Ok(frame)
            },
            Err(e) => Err(e),
        }
    }

    /// The device that the requests of a client go to.
    pub fn sq_route(&self, badge: usize) -> (r: Result<SqRoute, Error>)
        ensures
            r == self@.route(badge),
    {
        let meta = match self.partitions.get(&badge) {
            Some(proxy) => proxy.meta,
            None => {
                return Err(Error::NotFound);
            },
        };
        let hw_id: usize = meta.parent as usize;
        let client = match self.device_clients.get(&hw_id) {
            Some(client) => *client,
            None => {
                return Err(Error::NotFound);
            },
        };
        if !client.has_ring {
            return Err(Error::NotInitialized);
        }
        if !self.client_rings.contains(&badge) {
            return Err(Error::NotInitialized);
        }
        Ok(SqRoute { hw_id, block_size: client.block_size })
    }

    /// Whether the numbers of a request stay within the machine's.
    pub fn submission_fits(&self, badge: usize, sqe: &IoUringSqe) -> (r: bool)
        requires
            self.wf(),
        ensures
            r == self@.can_submit(badge, *sqe),
    {
        let route = match self.sq_route(badge) {
            Ok(route) => route,
            Err(_) => {
                return false;
            },
        };
        if route.block_size == 0 {
            return false;
        }
        let start_lba: u64 = match self.partitions.get(&badge) {
            Some(proxy) => proxy.meta.start_lba,
            None => 0,
        };
        if start_lba > u64::MAX / OFFSET_UNIT {
            return false;
        }
        let shift: u64 = start_lba * OFFSET_UNIT;
        if shift as u128 + sqe.off as u128 > usize::MAX as u128 {
            return false;
        }
        let off: usize = sqe.off + shift as usize;
        if let Some(shm) = self.client_shms.get(&badge) {
            if shm.vaddr <= sqe.addr {
                if shm.size > usize::MAX - shm.vaddr {
                    return false;
                }
                if sqe.addr < shm.vaddr + shm.size {
                    if let Some(gshm) = self.global_shm {
                        if gshm.vaddr > usize::MAX - (sqe.addr - shm.vaddr) {
                            return false;
                        }
                    }
                }
            }
        }
        let block_size: u32 = route.block_size;
        if off % block_size as usize == 0 && sqe.len % block_size == 0 {
            return true;
        }
        off as u128 + sqe.len as u128 + block_size as u128 - 1 <= usize::MAX as u128
            && self.buffer_cache.is_usable()
    }

    fn to_device_request(&self, badge: usize, sqe: IoUringSqe) -> (req: IoUringSqe)
        requires
            self@.can_submit(badge, sqe),
        ensures
            req == self@.device_request(badge, sqe),
    {
        let mut req = sqe;
        if let Some(proxy) = self.partitions.get(&badge) {
            proxy.translate_sqe(&mut req);
        }
        if let Some(shm) = self.client_shms.get(&badge) {
            let addr: usize = req.addr;
            if addr >= shm.vaddr && addr < shm.vaddr + shm.size {
                let offset: usize = addr - shm.vaddr;
                if let Some(gshm) = self.global_shm {
                    req.addr = gshm.vaddr + offset;
                }
            }
        }
        req
    }

    /// Turns a request out of a client's ring into the request that goes to the device.
    pub fn handle_notify_sq(&mut self, badge: usize, sqe: IoUringSqe, op_write: u8) -> (out:
        IoUringSqe)
        requires
            old(self).wf(),
            old(self)@.can_submit(badge, sqe),
        ensures
            final(self).wf(),
            submitted(old(self)@, badge, sqe, op_write, final(self)@, out),
            out.off <= sqe.off + 512 * old(self)@.partitions[badge].meta.start_lba,
            sqe.off + 512 * old(self)@.partitions[badge].meta.start_lba < out.off + old(
                self,
            )@.route(badge)->Ok_0.block_size,
    {
        let ghost before = self@;
        let route = match self.sq_route(badge) {
            Ok(route) => route,
            Err(_) => {
                // Ruled out by the precondition.
                return sqe;
            },
        };
        let block_size: u32 = route.block_size;
        let mut req = self.to_device_request(badge, sqe);
        let ghost plain = req;
        let number: usize = self.next_partition_badge | HARDWARE_REQUEST;
        self.next_partition_badge = self.next_partition_badge.wrapping_add(1);
        let client_user_data: usize = req.user_data;
        req.user_data = number;
        if IOBufferManager::is_aligned(&req, block_size) {
            self.inflight_requests.insert(
                number,
                RequestContext { client_badge: badge, client_user_data, buffer_info: None },
            );
            assert(self@ =~= before.with_request(
                RequestContext { client_badge: badge, client_user_data, buffer_info: None },
            ));
            req
        } else {
            let below: usize = block_size as usize - 1;
            let top: usize = req.off + req.len as usize + below;
            let aligned_offset: usize = req.off & !below;
            let end_offset: usize = top & !below;
            proof {
                lemma_mask(req.off, below);
                lemma_mask(top, below);
            }
            let aligned_len: u32 = (end_offset - aligned_offset) as u32;
            let sector_idx: usize = aligned_offset / block_size as usize;
            let cache_res = self.buffer_cache.access_block(route.hw_id, sector_idx, 1);
            let ghost cache = self.buffer_cache@;
            let is_write: bool = req.opcode == op_write;
            let info = BufferInfo {
                original_addr: req.addr,
                original_len: req.len,
                original_offset: req.off,
                aligned_offset,
                aligned_len,
                is_write,
                is_rmw: is_write,
                cache_idx: Some(cache_res.block_idx),
            };
            let ctx = RequestContext {
                client_badge: badge,
                client_user_data,
                buffer_info: Some(info),
            };
            req.addr = cache_res.buf_vaddr;
            req.off = aligned_offset;
            req.len = aligned_len;
            self.inflight_requests.insert(number, ctx);
            proof {
                assert(info == widened(plain, block_size, op_write, cache_res.block_idx));
                assert(self@ =~= (ServerState { cache, ..before }).with_request(ctx));
                assert(buffer::cache_sector(sector_idx, 1) == sector_idx);
                assert(before.cache.accessed(
                    (route.hw_id, sector_idx),
                    cache,
                    cache_res,
                ));
            }
            req
        }
    }

    /// Takes a device's answer to a request, and gives the client's.
    pub fn handle_notify_cq(&mut self, user_data: usize, res: i32) -> (r: Option<Completion>)
        ensures
            old(self).wf() ==> final(self).wf(),
            old(self)@.keeps_books(final(self)@),
            completed(old(self)@, user_data, res, final(self)@, r),
    {
        match self.inflight_requests.remove(&user_data) {
            Some(ctx) => {
                assert(self@ =~= (ServerState {
                    inflight: old(self)@.inflight.remove(user_data),
                    ..old(self)@
                }));
                let mut answer: i32 = res;
                if let Some(info) = ctx.buffer_info {
                    if res >= 0 {
                        answer = info.original_len as i32;
                    }
                }
                if self.client_rings.contains(&ctx.client_badge) {
                    Some(
                        Completion {
                            client_badge: ctx.client_badge,
                            user_data: ctx.client_user_data,
                            res: answer,
                        },
                    )
                } else {
                    None
                }
            },
            None => {
                assert(self@ =~= old(self)@);
                None
            },
        }
    }
}

/// A mask splits a number in two parts, of which one is no larger than the mask.
proof fn lemma_mask(x: usize, m: usize)
    ensures
        x & !m <= x,
        x - (x & !m) <= m,
{
    assert(x & !m <= x && x - (x & !m) <= m) by (bit_vector);
}

/// A request that is widened to whole blocks still covers all that was asked for, as long as its
/// length can be told.
pub proof fn law_widened_request_covers_the_asked(
    req: IoUringSqe,
    block_size: u32,
    op_write: u8,
    idx: usize,
)
    requires
        block_size > 0,
        req.off + req.len + block_size - 1 <= usize::MAX,
        req.len + 2 * block_size <= u32::MAX,
    ensures
        ({
            let info = widened(req, block_size, op_write, idx);
            &&& info.aligned_offset <= req.off
            &&& req.off + req.len <= info.aligned_offset + info.aligned_len
            &&& info.aligned_offset + info.aligned_len == blocks_end(
                req.off,
                req.len,
                block_size,
            )
        }),
{
    let below = (block_size - 1) as usize;
    let top = (req.off + req.len + block_size - 1) as usize;
    lemma_mask(req.off, below);
    lemma_mask(top, below);
}

/// Where blocks are a power of two long, a widened request starts and ends at block boundaries.
pub proof fn law_widened_request_is_aligned(off: usize, len: u32, block_size: u32, n: nat)
    requires
        n < 32,
        block_size == vstd::arithmetic::power2::pow2(n),
        off + len + block_size - 1 <= usize::MAX,
    ensures
        blocks_start(off, block_size) as int % block_size as int == 0,
        blocks_end(off, len, block_size) as int % block_size as int == 0,
        blocks_start(off, block_size) == off - off as int % block_size as int,
{
    lemma_power_of_two_mask(off, block_size, n);
    lemma_power_of_two_mask((off + len + block_size - 1) as usize, block_size, n);
}

proof fn lemma_power_of_two_mask(x: usize, block_size: u32, n: nat)
    requires
        n < 32,
        block_size == vstd::arithmetic::power2::pow2(n),
    ensures
        blocks_start(x, block_size) == x - x as int % block_size as int,
        blocks_start(x, block_size) as int % block_size as int == 0,
{
    let m = (block_size - 1) as usize;
    let wide = x as u64;
    vstd::arithmetic::power2::lemma_pow2_pos(n);
    vstd::bits::lemma_u64_low_bits_mask_is_mod(wide, n);
    assert(vstd::bits::low_bits_mask(n) == block_size - 1);
    assert(x & !m == x - (x & m)) by (bit_vector);
    assert(x & m == (x as u64) & (m as u64)) by (bit_vector);
    let r = x as int % block_size as int;
    vstd::arithmetic::div_mod::lemma_fundamental_div_mod(x as int, block_size as int);
    vstd::arithmetic::div_mod::lemma_mod_multiples_basic(
        x as int / block_size as int,
        block_size as int,
    );
    assert((x as int / block_size as int) * block_size == block_size * (x as int
        / block_size as int)) by (nonlinear_arith);
}

/// A number below the bit that marks requests keeps its place when it is marked.
proof fn lemma_marked(x: usize)
    requires
        x < HARDWARE_REQUEST,
    ensures
        x | HARDWARE_REQUEST == x + HARDWARE_REQUEST,
{
    let top = HARDWARE_REQUEST;
    let max = usize::MAX;
    assert(max <= !0usize) by (bit_vector);
    assert(x | top == x + top) by (bit_vector)
        requires
            top == max / 2 + 1,
            max == !0usize,
            x < top,
    ;
}

/// No two requests in flight have the same number, and the bookkeeping stays consistent.
pub proof fn law_requests_get_new_numbers(
    before: ServerState,
    badge: usize,
    sqe: IoUringSqe,
    op_write: u8,
    after: ServerState,
    out: IoUringSqe,
)
    requires
        before.numbered(),
        before.next_badge < HARDWARE_REQUEST,
        submitted(before, badge, sqe, op_write, after, out),
    ensures
        !before.inflight.contains_key(out.user_data),
        after.inflight.contains_key(out.user_data),
        before.keeps_books(after),
{
    lemma_marked(before.next_badge);
}

/// What a device answers to a request comes back to the client that made it, as the answer to the
/// request that it made, and the request is no longer in flight.
pub proof fn law_answers_come_back(
    before: ServerState,
    badge: usize,
    sqe: IoUringSqe,
    op_write: u8,
    between: ServerState,
    out: IoUringSqe,
    res: i32,
    after: ServerState,
    r: Option<Completion>,
)
    requires
        before.route(badge) is Ok,
        !before.inflight.contains_key(out.user_data),
        submitted(before, badge, sqe, op_write, between, out),
        completed(between, out.user_data, res, after, r),
    ensures
        r is Some,
        r->0.client_badge == badge,
        r->0.user_data == sqe.user_data,
        IOBufferManager::aligned(
            before.device_request(badge, sqe),
            before.route(badge)->Ok_0.block_size,
        ) || res < 0 ==> r->0.res == res,
        !IOBufferManager::aligned(
            before.device_request(badge, sqe),
            before.route(badge)->Ok_0.block_size,
        ) && res >= 0 ==> r->0.res == sqe.len as i32,
        after.inflight == before.inflight,
{
    assert(after.inflight =~= before.inflight);
}

/// A request is answered once: a second answer to it is dropped.
pub proof fn law_requests_are_answered_once(
    before: ServerState,
    user_data: usize,
    first: i32,
    between: ServerState,
    r: Option<Completion>,
    second: i32,
    after: ServerState,
    again: Option<Completion>,
)
    requires
        completed(before, user_data, first, between, r),
        completed(between, user_data, second, after, again),
    ensures
        again is None,
        after == between,
{
}

/// A request that is aligned to blocks does not touch the cache.
pub proof fn law_aligned_requests_bypass_the_cache(
    before: ServerState,
    badge: usize,
    sqe: IoUringSqe,
    op_write: u8,
    after: ServerState,
    out: IoUringSqe,
)
    requires
        submitted(before, badge, sqe, op_write, after, out),
        IOBufferManager::aligned(
            before.device_request(badge, sqe),
            before.route(badge)->Ok_0.block_size,
        ),
    ensures
        after.cache == before.cache,
        out.off == before.device_request(badge, sqe).off,
        out.len == sqe.len,
{
}

/// A request that is not aligned to blocks goes through one cache block. As long as the device
/// changes no other, what is cached of any device stays as it was given, but for the window that
/// the cache block is given to.
pub proof fn law_widened_request_spoils_one_window(
    dev: DeviceAnswers,
    hw_id: usize,
    block_size: usize,
    before: ServerState,
    badge: usize,
    sqe: IoUringSqe,
    op_write: u8,
    after: ServerState,
    out: IoUringSqe,
    before_bytes: Seq<u8>,
    after_bytes: Seq<u8>,
    spoiled: Set<usize>,
)
    requires
        submitted(before, badge, sqe, op_write, after, out),
        !IOBufferManager::aligned(
            before.device_request(badge, sqe),
            before.route(badge)->Ok_0.block_size,
        ),
        (Store { cache: before.cache, arena: before_bytes }).can_serve(block_size),
        after_bytes.len() == before_bytes.len(),
        forall|k: int|
            0 <= k < before_bytes.len() && !(out.addr <= before.cache.base_vaddr + k < out.addr
                + before.cache.block_size) ==> after_bytes[k] == before_bytes[k],
        coherence::coherent_but(
            dev,
            hw_id,
            block_size,
            Store { cache: before.cache, arena: before_bytes },
            spoiled,
        ),
    ensures
        ({
            let route = before.route(badge)->Ok_0;
            let start = blocks_start(before.device_request(badge, sqe).off, route.block_size);
            coherence::coherent_but(
                dev,
                hw_id,
                block_size,
                Store { cache: after.cache, arena: after_bytes },
                if route.hw_id == hw_id {
                    spoiled.insert((start as int / route.block_size as int) as usize)
                } else {
                    spoiled
                },
            )
        }),
{
    let route = before.route(badge)->Ok_0;
    let start = blocks_start(before.device_request(badge, sqe).off, route.block_size);
    let sector = (start as int / route.block_size as int) as usize;
    let res = choose|res: CacheResult|
        {
            &&& #[trigger] before.cache.accessed((route.hw_id, sector), after.cache, res)
            &&& out.addr == res.buf_vaddr
        };
    coherence::law_access_spoils_one_window(
        dev,
        hw_id,
        block_size,
        (route.hw_id, sector),
        Store { cache: before.cache, arena: before_bytes },
        Store { cache: after.cache, arena: after_bytes },
        res,
        spoiled,
    );
}

/// A request is moved by 512 bytes for every block before its partition, and nothing else of it
/// changes.
pub proof fn law_requests_are_moved_by_the_blocks_before(meta: PartitionMetadata, sqe: IoUringSqe)
    requires
        sqe.off + 512 * meta.start_lba <= usize::MAX,
    ensures
        translated(meta, sqe).off - sqe.off == 512 * meta.start_lba,
        translated(meta, sqe).opcode == sqe.opcode,
        translated(meta, sqe).addr == sqe.addr,
        translated(meta, sqe).len == sqe.len,
        translated(meta, sqe).user_data == sqe.user_data,
{
}

/// Requests in two partitions that do not overlap never ask for the same byte of the device.
pub proof fn law_partitions_do_not_share_bytes(
    a: PartitionMetadata,
    b: PartitionMetadata,
    x: IoUringSqe,
    y: IoUringSqe,
    i: int,
    j: int,
)
    requires
        a.start_lba + a.num_blocks <= b.start_lba || b.start_lba + b.num_blocks <= a.start_lba,
        x.off + x.len <= 512 * a.num_blocks,
        y.off + y.len <= 512 * b.num_blocks,
        512 * (a.start_lba + a.num_blocks) <= usize::MAX,
        512 * (b.start_lba + b.num_blocks) <= usize::MAX,
        0 <= i < x.len,
        0 <= j < y.len,
    ensures
        translated(a, x).off + i != translated(b, y).off + j,
{
}

/// A client's requests go to the device of its partition, in blocks of the device's size. They do
/// exactly if there is such a partition and such a device, and both have a ring.
pub proof fn law_requests_go_to_the_device_of_the_partition(state: ServerState, badge: usize)
    requires
        state.partitions.contains_key(badge) ==> state.partitions[badge].meta.parent <= usize::MAX,
    ensures
        ({
            let hw_id = state.partitions[badge].meta.parent as usize;
            let known = state.partitions.contains_key(badge) && state.device_clients.contains_key(
                hw_id,
            );
            let rings = state.device_clients[hw_id].has_ring && state.client_rings.contains(badge);
            &&& state.route(badge) is Ok <==> known && rings
            &&& !known ==> state.route(badge) == Err::<SqRoute, Error>(Error::NotFound)
            &&& known && !rings ==> state.route(badge) == Err::<SqRoute, Error>(
                Error::NotInitialized,
            )
            &&& state.route(badge) is Ok ==> {
                &&& state.route(badge)->Ok_0.hw_id == state.partitions[badge].meta.parent
                &&& state.route(badge)->Ok_0.block_size == state.device_clients[hw_id].block_size
            }
        }),
{
}

/// Whether `addr` is where the device finds the bytes that a client has at `asked`: as far from the
/// start of the global buffer as `asked` is from where the client mapped it, or there itself if the
/// client did not mean the global buffer.
pub open spec fn is_address_of(
    state: ServerState,
    badge: usize,
    asked: usize,
    addr: usize,
) -> bool {
    let shm = state.client_shms[badge];
    if state.client_shms.contains_key(badge) && state.global_shm is Some && shm.vaddr <= asked
        && asked < shm.vaddr + shm.size {
        addr - state.global_shm->0.vaddr == asked - shm.vaddr
    } else {
        addr == asked
    }
}

/// A request that goes to a device is in flight from then on, under the next badge with the highest
/// bit set, and that badge is used up. Other than that and what is cached, nothing changes.
pub proof fn law_submitting_notes_the_request(
    before: ServerState,
    badge: usize,
    sqe: IoUringSqe,
    op_write: u8,
    after: ServerState,
    out: IoUringSqe,
)
    requires
        2 * before.next_badge <= usize::MAX,
        submitted(before, badge, sqe, op_write, after, out),
    ensures
        2 * (out.user_data - before.next_badge) == usize::MAX + 1,
        after.next_badge == before.next_badge + 1,
        after.inflight.contains_key(out.user_data),
        after.inflight[out.user_data].client_badge == badge,
        after.inflight[out.user_data].client_user_data == sqe.user_data,
        forall|number: usize|
            number != out.user_data ==> (#[trigger] after.inflight.contains_key(number)
                == before.inflight.contains_key(number)) && after.inflight[number]
                == before.inflight[number],
        after == (ServerState {
            next_badge: after.next_badge,
            inflight: after.inflight,
            cache: after.cache,
            ..before
        }),
        out.opcode == sqe.opcode,
{
    lemma_marked(before.next_badge);
}

/// A request that starts and ends at blocks of the device goes there as it is, 512 bytes further
/// for every block before its partition.
pub proof fn law_aligned_requests_go_as_they_are(
    before: ServerState,
    badge: usize,
    sqe: IoUringSqe,
    op_write: u8,
    after: ServerState,
    out: IoUringSqe,
)
    requires
        before.can_submit(badge, sqe),
        before.partitions[badge].meta.parent <= usize::MAX,
        submitted(before, badge, sqe, op_write, after, out),
        ({
            let meta = before.partitions[badge].meta;
            let size = before.device_clients[meta.parent as usize].block_size as int;
            (sqe.off + 512 * meta.start_lba) % size == 0 && sqe.len as int % size == 0
        }),
    ensures
        out.off == sqe.off + 512 * before.partitions[badge].meta.start_lba,
        out.len == sqe.len,
        is_address_of(before, badge, sqe.addr, out.addr),
        after.inflight[out.user_data].buffer_info is None,
        after.cache == before.cache,
{
}

/// Any other request goes through a block of the cache: it is widened at either end by less than a
/// block, and its context says where and how long it was, and whether it writes. The cache block
/// is found under the device and the place where the widened request starts, counted in blocks.
pub proof fn law_other_requests_are_widened(
    before: ServerState,
    badge: usize,
    sqe: IoUringSqe,
    op_write: u8,
    after: ServerState,
    out: IoUringSqe,
)
    requires
        before.can_submit(badge, sqe),
        before.partitions[badge].meta.parent <= usize::MAX,
        submitted(before, badge, sqe, op_write, after, out),
        ({
            let meta = before.partitions[badge].meta;
            let size = before.device_clients[meta.parent as usize].block_size;
            &&& sqe.len + 2 * size <= u32::MAX
            &&& (sqe.off + 512 * meta.start_lba) % (size as int) != 0 || sqe.len as int
                % size as int != 0
        }),
    ensures
        ({
            let meta = before.partitions[badge].meta;
            let size = before.device_clients[meta.parent as usize].block_size;
            let place = sqe.off + 512 * meta.start_lba;
            &&& place - size < out.off <= place
            &&& place + sqe.len <= out.off + out.len < place + sqe.len + size
        }),
        ({
            let meta = before.partitions[badge].meta;
            let size = before.device_clients[meta.parent as usize].block_size;
            let place = sqe.off + 512 * meta.start_lba;
            let kept = after.inflight[out.user_data].buffer_info;
            let info = kept->0;
            let idx = info.cache_idx->0;
            let key = (meta.parent as usize, (out.off as int / size as int) as usize);
            &&& kept is Some
            &&& info.original_offset == place
            &&& info.original_len == sqe.len
            &&& is_address_of(before, badge, sqe.addr, info.original_addr)
            &&& info.aligned_offset == out.off
            &&& info.aligned_len == out.len
            &&& info.is_write == (sqe.opcode == op_write)
            &&& info.is_rmw == (sqe.opcode == op_write)
            &&& info.cache_idx is Some
            &&& after.cache.lookup.contains_key(key)
            &&& after.cache.lookup[key] == idx
            &&& out.addr == before.cache.base_vaddr + before.cache.blocks[idx as int].buf_offset
        }),
{
    let meta = before.partitions[badge].meta;
    let size = before.device_clients[meta.parent as usize].block_size;
    let req = before.device_request(badge, sqe);
    let below = (size - 1) as usize;
    lemma_mask(req.off, below);
    lemma_mask((req.off + req.len + size - 1) as usize, below);
}

/// Where blocks divide 512 bytes, or a request starts and ends at blocks, a request that stays in
/// its partition goes to no byte outside of it.
pub proof fn law_requests_stay_in_their_partition(
    before: ServerState,
    badge: usize,
    sqe: IoUringSqe,
    op_write: u8,
    after: ServerState,
    out: IoUringSqe,
    n: nat,
)
    requires
        before.can_submit(badge, sqe),
        before.partitions[badge].meta.parent <= usize::MAX,
        submitted(before, badge, sqe, op_write, after, out),
        sqe.off + sqe.len <= 512 * before.partitions[badge].meta.num_blocks,
        ({
            let meta = before.partitions[badge].meta;
            let size = before.device_clients[meta.parent as usize].block_size;
            ||| n <= 9 && size == vstd::arithmetic::power2::pow2(n) && sqe.len + 2 * size
                <= u32::MAX
            ||| (sqe.off + 512 * meta.start_lba) % (size as int) == 0 && sqe.len as int
                % size as int == 0
        }),
    ensures
        ({
            let meta = before.partitions[badge].meta;
            &&& 512 * meta.start_lba <= out.off
            &&& out.off + out.len <= 512 * (meta.start_lba + meta.num_blocks)
        }),
{
    let meta = before.partitions[badge].meta;
    let size = before.device_clients[meta.parent as usize].block_size;
    let place = sqe.off + 512 * meta.start_lba;
    if !(place % (size as int) == 0 && sqe.len as int % size as int == 0) {
        let m = vstd::arithmetic::power2::pow2((9 - n) as nat);
        vstd::arithmetic::power2::lemma_pow2_adds(n, (9 - n) as nat);
        vstd::arithmetic::power2::lemma2_to64();
        assert(size * m == 512);
        let req = before.device_request(badge, sqe);
        assert(req.off == place && req.len == sqe.len);
        let top = (place + sqe.len + size - 1) as usize;
        law_other_requests_are_widened(before, badge, sqe, op_write, after, out);
        law_widened_request_covers_the_asked(req, size, op_write, 0);
        lemma_power_of_two_mask(req.off, size, n);
        lemma_power_of_two_mask(top, size, n);
        lemma_whole_blocks(place as int, size as int, m as int, meta.start_lba as int);
        lemma_whole_blocks(
            top as int,
            size as int,
            m as int,
            meta.start_lba + meta.num_blocks,
        );
    }
}

/// Rounding down to blocks does not cross a multiple of 512 bytes, where blocks divide that.
proof fn lemma_whole_blocks(x: int, size: int, m: int, k: int)
    requires
        size > 0,
        size * m == 512,
    ensures
        x >= 512 * k ==> x - x % size >= 512 * k,
        x < 512 * k + size ==> x - x % size <= 512 * k,
{
    vstd::arithmetic::div_mod::lemma_fundamental_div_mod(x, size);
    let q = x / size;
    assert(512 * k == size * (m * k)) by (nonlinear_arith)
        requires
            size * m == 512,
    ;
    let b = m * k;
    if x >= 512 * k {
        assert(q >= b) by (nonlinear_arith)
            requires
                size > 0,
                size * q + x % size >= size * b,
                x % size < size,
        ;
        assert(size * q >= size * b) by (nonlinear_arith)
            requires
                size > 0,
                q >= b,
        ;
    }
    if x < 512 * k + size {
        assert(q <= b) by (nonlinear_arith)
            requires
                size > 0,
                size * q + x % size < size * b + size,
                0 <= x % size,
        ;
        assert(size * q <= size * b) by (nonlinear_arith)
            requires
                size > 0,
                q <= b,
        ;
    }
}

/// What the device answers to a request is the client's answer, but that of a widened request that
/// went well, which is the length that the client asked for. Whoever has no ring gets none, and
/// nothing but the requests in flight changes.
pub proof fn law_answers_tell_what_was_asked(
    before: ServerState,
    user_data: usize,
    res: i32,
    after: ServerState,
    r: Option<Completion>,
)
    requires
        completed(before, user_data, res, after, r),
    ensures
        r is Some <==> before.inflight.contains_key(user_data) && before.client_rings.contains(
            before.inflight[user_data].client_badge,
        ),
        r is Some ==> {
            let ctx = before.inflight[user_data];
            let asked = ctx.buffer_info->0.original_len;
            &&& r->0.client_badge == ctx.client_badge
            &&& r->0.user_data == ctx.client_user_data
            &&& res < 0 || ctx.buffer_info is None ==> r->0.res == res
            &&& res >= 0 && ctx.buffer_info is Some && asked <= i32::MAX ==> r->0.res == asked
        },
        !after.inflight.contains_key(user_data),
        forall|number: usize|
            number != user_data ==> (#[trigger] after.inflight.contains_key(number)
                == before.inflight.contains_key(number)) && after.inflight[number]
                == before.inflight[number],
        after == (ServerState { inflight: after.inflight, ..before }),
{
}

/// A ring takes 64 bytes, 64 for each request that it holds and 16 for each answer, and only a
/// client that has none gets one.
pub proof fn law_rings_are_made_large_enough<
    A: FnOnce(usize, u32, u32) -> Result<CapPtr, Error>,
>(
    alloc: A,
    badge: usize,
    sq_entries: u32,
    cq_entries: u32,
    before: ServerState,
    after: ServerState,
    r: Result<CapPtr, Error>,
    size: usize,
)
    requires
        size == 64 * (1 + sq_entries) + 16 * cq_entries,
        ring_set_up(alloc, badge, sq_entries, cq_entries, before, after, r),
    ensures
        before.client_rings.contains(badge) ==> r == Err::<CapPtr, Error>(Error::AlreadyExists),
        !before.client_rings.contains(badge) ==> call_ensures(
            alloc,
            (size, sq_entries, cq_entries),
            r,
        ),
        forall|other: usize| #[trigger]
            after.client_rings.contains(other) <==> before.client_rings.contains(other) || (other
                == badge && r is Ok),
        after == (ServerState { client_rings: after.client_rings, ..before }),
{
}

/// A client that takes the global buffer is told where it is, how large it is and its frame; and
/// what it registers is remembered under its own badge alone, with no physical address.
pub proof fn law_clients_register_the_global_buffer(
    badge: usize,
    vaddr: usize,
    size: usize,
    before: ServerState,
    after: ServerState,
    failed: Option<Error>,
)
    requires
        shm_registered(badge, vaddr, size, before, after, failed),
    ensures
        failed is None <==> before.global_shm is Some,
        failed is Some ==> failed == Some(Error::NotInitialized) && after == before,
        acquired(before) is Ok <==> before.global_shm is Some,
        acquired(before) is Err ==> acquired(before) == Err::<AcquiredShm, Error>(
            Error::NotInitialized,
        ),
        failed is None ==> {
            let shm = after.client_shms[badge];
            &&& acquired(before)->Ok_0.vaddr == before.global_shm->0.vaddr
            &&& acquired(before)->Ok_0.size == before.global_shm->0.size
            &&& acquired(before)->Ok_0.frame == before.global_shm->0.frame
            &&& after.client_shms.contains_key(badge)
            &&& shm.frame == before.global_shm->0.frame
            &&& shm.vaddr == vaddr
            &&& shm.size == size
            &&& shm.paddr == 0
            &&& shm.recv_slot == 0
        },
        forall|other: usize|
            other != badge ==> (#[trigger] after.client_shms.contains_key(other)
                == before.client_shms.contains_key(other)) && after.client_shms[other]
                == before.client_shms[other],
        after == (ServerState { client_shms: after.client_shms, ..before }),
{
}

/// A request can be submitted if its numbers stay within the machine's, however far from the start
/// of the device its partition lies; and only if its place on the device can be told.
pub proof fn law_what_fits_can_be_submitted(state: ServerState, badge: usize, sqe: IoUringSqe)
    requires
        state.partitions.contains_key(badge),
        state.partitions[badge].meta.parent <= usize::MAX,
    ensures
        ({
            let meta = state.partitions[badge].meta;
            let hw_id = meta.parent as usize;
            let device = state.device_clients[hw_id];
            let shm = state.client_shms[badge];
            let place = sqe.off + 512 * meta.start_lba;
            let connected = state.device_clients.contains_key(hw_id) && device.has_ring
                && state.client_rings.contains(badge) && device.block_size > 0;
            let whole = place % (device.block_size as int) == 0 && sqe.len as int
                % device.block_size as int == 0;
            &&& connected && place + sqe.len + device.block_size - 1 <= usize::MAX
                && shm.vaddr + shm.size <= usize::MAX && (state.global_shm is Some
                ==> state.global_shm->0.vaddr + shm.size <= usize::MAX)
                && state.cache.blocks.len() > 0 && state.cache.addressable() ==> state.can_submit(
                badge,
                sqe,
            )
            &&& connected && place <= usize::MAX && !state.client_shms.contains_key(badge) && whole
                ==> state.can_submit(badge, sqe)
            &&& state.can_submit(badge, sqe) ==> connected && place <= usize::MAX
        }),
{
}

/// The length of a widened request is told modulo `2^32`: it ends, where that much is added back,
/// less than a block after what was asked for.
pub proof fn law_widened_length_is_told_in_32_bits(
    before: ServerState,
    badge: usize,
    sqe: IoUringSqe,
    op_write: u8,
    after: ServerState,
    out: IoUringSqe,
) -> (end: int)
    requires
        before.can_submit(badge, sqe),
        before.partitions[badge].meta.parent <= usize::MAX,
        submitted(before, badge, sqe, op_write, after, out),
        ({
            let meta = before.partitions[badge].meta;
            let size = before.device_clients[meta.parent as usize].block_size;
            (sqe.off + 512 * meta.start_lba) % (size as int) != 0 || sqe.len as int % size as int
                != 0
        }),
    ensures
        ({
            let meta = before.partitions[badge].meta;
            let size = before.device_clients[meta.parent as usize].block_size;
            let place = sqe.off + 512 * meta.start_lba;
            &&& place - size < out.off <= place
            &&& place + sqe.len <= end < place + sqe.len + size
            &&& out.len == (end - out.off) % 0x1_0000_0000
        }),
{
    let meta = before.partitions[badge].meta;
    let size = before.device_clients[meta.parent as usize].block_size;
    let req = before.device_request(badge, sqe);
    let below = (size - 1) as usize;
    lemma_mask(req.off, below);
    lemma_mask((req.off + req.len + size - 1) as usize, below);
    let end = blocks_end(req.off, req.len, size);
    let span = (end - blocks_start(req.off, size)) as usize;
    assert(span as u32 == (span as u64) % 0x1_0000_0000u64) by (bit_vector);
    end as int
}

/// Once badges have the highest bit themselves, requests are numbered like them.
pub proof fn law_high_badges_number_requests(
    before: ServerState,
    badge: usize,
    sqe: IoUringSqe,
    op_write: u8,
    after: ServerState,
    out: IoUringSqe,
)
    requires
        2 * before.next_badge > usize::MAX,
        submitted(before, badge, sqe, op_write, after, out),
    ensures
        out.user_data == before.next_badge,
        before.next_badge < usize::MAX ==> after.next_badge == before.next_badge + 1,
        before.next_badge == usize::MAX ==> after.next_badge == 0,
{
    let x = before.next_badge;
    let top = HARDWARE_REQUEST;
    let max = usize::MAX;
    assert(max <= !0usize) by (bit_vector);
    assert(x | top == x) by (bit_vector)
        requires
            top == max / 2 + 1,
            max == !0usize,
            x >= top,
    ;
}

/// Requests that stay in two partitions that do not overlap never reach the same byte of the
/// device, where blocks divide 512 bytes or the requests start and end at blocks.
pub proof fn law_requests_of_partitions_keep_apart(
    before: ServerState,
    badge: usize,
    sqe: IoUringSqe,
    op_write: u8,
    between: ServerState,
    out: IoUringSqe,
    later: ServerState,
    other_badge: usize,
    other_sqe: IoUringSqe,
    after: ServerState,
    other_out: IoUringSqe,
    n: nat,
    i: int,
    j: int,
)
    requires
        before.can_submit(badge, sqe),
        submitted(before, badge, sqe, op_write, between, out),
        later.can_submit(other_badge, other_sqe),
        submitted(later, other_badge, other_sqe, op_write, after, other_out),
        ({
            let a = before.partitions[badge].meta;
            let b = later.partitions[other_badge].meta;
            let size = before.device_clients[a.parent as usize].block_size;
            let whole = |meta: PartitionMetadata, asked: IoUringSqe|
                (asked.off + 512 * meta.start_lba) % (size as int) == 0 && asked.len as int
                    % size as int == 0;
            &&& a.parent == b.parent
            &&& a.parent <= usize::MAX
            &&& later.device_clients[a.parent as usize].block_size == size
            &&& a.start_lba + a.num_blocks <= b.start_lba || b.start_lba + b.num_blocks
                <= a.start_lba
            &&& sqe.off + sqe.len <= 512 * a.num_blocks
            &&& other_sqe.off + other_sqe.len <= 512 * b.num_blocks
            &&& (n <= 9 && size == vstd::arithmetic::power2::pow2(n) && sqe.len + 2 * size
                <= u32::MAX && other_sqe.len + 2 * size <= u32::MAX) || (whole(a, sqe) && whole(
                b,
                other_sqe,
            ))
        }),
        0 <= i < out.len,
        0 <= j < other_out.len,
    ensures
        out.off + i != other_out.off + j,
{
    law_requests_stay_in_their_partition(before, badge, sqe, op_write, between, out, n);
    law_requests_stay_in_their_partition(
        later,
        other_badge,
        other_sqe,
        op_write,
        after,
        other_out,
        n,
    );
}

} // verus!
