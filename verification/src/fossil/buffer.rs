//! The block cache and the bookkeeping of requests that go through it.
use crate::policy;
use crate::policy::lru;
use crate::policy::{LruPolicy, ReplacementPolicy, WritePolicy, WriteThrough};
use std::collections::BTreeMap;
use vstd::prelude::*;

verus! {

/// What a cache block holds.
#[derive(Debug, Clone, Copy, PartialEq, Eq, Structural)]
pub enum BlockState {
    Invalid,
    Valid,
    Dirty,
    Filling,
}

/// One block of the cache: what it caches, and where in the global buffer.
#[derive(Debug, Clone, Copy)]
pub struct CacheBlock {
    pub device_id: usize,
    pub sector_idx: usize,
    pub state: BlockState,
    /// Offset in the global buffer.
    pub buf_offset: usize,
    /// The time of the last access.
    pub last_access: usize,
}

/// Counters of what happened to the cache. They stop at the largest number.
#[derive(Debug, Clone, Copy)]
pub struct CacheLedgerStats {
    pub hits: usize,
    pub misses: usize,
    pub evictions: usize,
    pub dirty_evictions: usize,
    pub mark_valid_calls: usize,
    pub mark_dirty_calls: usize,
}

/// The counters, and what the cache holds at the moment.
#[derive(Debug, Clone, Copy)]
pub struct CacheLedgerSnapshot {
    pub hits: usize,
    pub misses: usize,
    pub evictions: usize,
    pub dirty_evictions: usize,
    pub mark_valid_calls: usize,
    pub mark_dirty_calls: usize,
    pub lookup_entries: usize,
    pub free_blocks: usize,
    pub valid_blocks: usize,
    pub dirty_blocks: usize,
}

/// The block that an access was given.
#[derive(Debug, Clone, Copy)]
pub struct CacheResult {
    pub buf_vaddr: usize,
    pub buf_offset: usize,
    pub block_idx: usize,
    pub is_hit: bool,
}

impl CacheLedgerStats {
    /// All counters at zero.
    pub open spec fn zero() -> CacheLedgerStats {
        CacheLedgerStats {
            hits: 0,
            misses: 0,
            evictions: 0,
            dirty_evictions: 0,
            mark_valid_calls: 0,
            mark_dirty_calls: 0,
        }
    }
}

impl Default for CacheLedgerStats {
    fn default() -> (r: Self)
        ensures
            r == CacheLedgerStats::zero(),
    {
        CacheLedgerStats {
            hits: 0,
            misses: 0,
            evictions: 0,
            dirty_evictions: 0,
            mark_valid_calls: 0,
            mark_dirty_calls: 0,
        }
    }
}

impl Default for CacheLedgerSnapshot {
    fn default() -> (r: Self)
        ensures
            r == (CacheLedgerSnapshot {
                hits: 0,
                misses: 0,
                evictions: 0,
                dirty_evictions: 0,
                mark_valid_calls: 0,
                mark_dirty_calls: 0,
                lookup_entries: 0,
                free_blocks: 0,
                valid_blocks: 0,
                dirty_blocks: 0,
            }),
    {
        CacheLedgerSnapshot {
            hits: 0,
            misses: 0,
            evictions: 0,
            dirty_evictions: 0,
            mark_valid_calls: 0,
            mark_dirty_calls: 0,
            lookup_entries: 0,
            free_blocks: 0,
            valid_blocks: 0,
            dirty_blocks: 0,
        }
    }
}

/// A cache of device blocks in one global buffer.
///
/// The cache keeps track of which block of the buffer stands for which sectors of which device;
/// the bytes are the caller's business.
pub struct BufferCache {
    base_vaddr: usize,
    total_size: usize,
    block_size: usize,
    num_blocks: usize,
    blocks: Vec<CacheBlock>,
    access_counter: usize,
    lookup: BTreeMap<(usize, usize), usize>,
    free_blocks: Vec<usize>,
    policy: Box<dyn ReplacementPolicy>,
    write_policy: Box<dyn WritePolicy>,
    stats: CacheLedgerStats,
}

/// The cache as a mathematical object.
#[verifier::ext_equal]
pub struct CacheState {
    pub base_vaddr: usize,
    pub total_size: usize,
    pub block_size: usize,
    pub blocks: Seq<CacheBlock>,
    /// The time of the next access.
    pub clock: usize,
    /// Which block stands for which sectors: (device, first sector) to block.
    pub lookup: Map<(usize, usize), usize>,
    /// The blocks that stand for nothing yet; the last is used next.
    pub free: Seq<usize>,
    pub may_evict: spec_fn(Seq<CacheBlock>, usize) -> bool,
    pub may_write_through: spec_fn(CacheBlock, bool) -> bool,
    pub may_flush_on_evict: spec_fn(CacheBlock, bool) -> bool,
    /// The blocks whose accesses the replacement policy was told of, if it keeps them.
    pub told: Option<Seq<usize>>,
    pub stats: CacheLedgerStats,
}

/// The first sector of the cache block that `sector` belongs to, where a cache block holds
/// `sectors_per_cache_block` sectors (one, if that is 0).
pub open spec fn cache_sector(sector: usize, sectors_per_cache_block: usize) -> usize {
    if sectors_per_cache_block <= 1 {
        sector
    } else {
        ((sector / sectors_per_cache_block) * sectors_per_cache_block) as usize
    }
}

/// How many of the blocks are in the given state.
pub open spec fn count_state(blocks: Seq<CacheBlock>, state: BlockState) -> nat {
    blocks.filter(|b: CacheBlock| b.state == state).len()
}

/// The device and sector that a block was last assigned to.
pub open spec fn key_of(block: CacheBlock) -> (usize, usize) {
    (block.device_id, block.sector_idx)
}

impl CacheState {
    /// How many blocks fit in the buffer.
    pub open spec fn capacity(self) -> int {
        blocks_in(self.total_size, self.block_size) as int
    }

    /// Whether block `i` stands for the device and sector it was last assigned to.
    pub open spec fn in_use(self, i: usize) -> bool {
        let key = key_of(self.blocks[i as int]);
        self.lookup.contains_key(key) && self.lookup[key] == i
    }

    /// The counters agree with what is cached: whatever was missed is cached now or was evicted,
    /// as long as misses are counted, and what was evicted dirty was evicted.
    pub open spec fn balanced(self) -> bool {
        &&& self.stats.misses < usize::MAX ==> self.stats.misses == self.lookup.dom().len()
            + self.stats.evictions
        &&& self.stats.dirty_evictions <= self.stats.evictions
    }

    /// The invariant: the blocks divide the buffer; what is looked up is a block that was assigned
    /// to it; every block is either free or in use, but not both; and the counters agree with what
    /// is cached.
    pub open spec fn wf(self) -> bool {
        &&& self.blocks.len() == self.capacity()
        &&& forall|i: int|
            0 <= i < self.blocks.len() ==> (#[trigger] self.blocks[i]).buf_offset == i
                * self.block_size
        &&& forall|key: (usize, usize)| #[trigger]
            self.lookup.contains_key(key) ==> self.lookup[key] < self.blocks.len() && key_of(
                self.blocks[self.lookup[key] as int],
            ) == key
        &&& self.free.no_duplicates()
        &&& forall|j: int| 0 <= j < self.free.len() ==> #[trigger] self.free[j] < self.blocks.len()
        &&& forall|i: usize|
            i < self.blocks.len() ==> (#[trigger] self.in_use(i) <==> !self.free.contains(i))
        &&& self.lookup.dom().finite()
        &&& self.lookup.dom().len() + self.free.len() == self.blocks.len()
        &&& self.balanced()
    }

    /// Whether the address of every block fits in the address space.
    pub open spec fn addressable(self) -> bool {
        forall|i: int|
            0 <= i < self.blocks.len() ==> self.base_vaddr + (#[trigger] self.blocks[i]).buf_offset
                <= usize::MAX
    }

    /// Whether the cache would make room for a new block at `idx`: it takes the free block that is
    /// next in line, and what the replacement policy chooses when none is free.
    pub open spec fn would_use(self, idx: usize) -> bool {
        if self.free.len() > 0 {
            idx == self.free.last()
        } else {
            idx < self.blocks.len() && (self.may_evict)(self.blocks, idx)
        }
    }

    /// The cache after an access that found its block at `idx`.
    pub open spec fn after_hit(self, idx: usize) -> CacheState {
        CacheState {
            blocks: self.blocks.update(
                idx as int,
                CacheBlock { last_access: self.clock, ..self.blocks[idx as int] },
            ),
            clock: self.clock.wrapping_add(1),
            told: policy::note_access(self.told, idx),
            stats: CacheLedgerStats { hits: self.stats.hits.saturating_add(1), ..self.stats },
            ..self
        }
    }

    /// The cache after an access that did not find `key` and was given the block at `idx`.
    pub open spec fn after_miss(self, key: (usize, usize), idx: usize) -> CacheState {
        let old = self.blocks[idx as int];
        let evicting = self.free.len() == 0;
        CacheState {
            blocks: self.blocks.update(
                idx as int,
                CacheBlock {
                    device_id: key.0,
                    sector_idx: key.1,
                    state: BlockState::Invalid,
                    buf_offset: old.buf_offset,
                    last_access: self.clock,
                },
            ),
            clock: self.clock.wrapping_add(1),
            lookup: if evicting {
                self.lookup.remove(key_of(old)).insert(key, idx)
            } else {
                self.lookup.insert(key, idx)
            },
            free: if evicting {
                self.free
            } else {
                self.free.drop_last()
            },
            told: policy::note_access(self.told, idx),
            stats: CacheLedgerStats {
                misses: self.stats.misses.saturating_add(1),
                evictions: if evicting {
                    self.stats.evictions.saturating_add(1)
                } else {
                    self.stats.evictions
                },
                dirty_evictions: if evicting && old.state == BlockState::Dirty {
                    self.stats.dirty_evictions.saturating_add(1)
                } else {
                    self.stats.dirty_evictions
                },
                ..self.stats
            },
            ..self
        }
    }

    /// An access to `key` that turned the cache `self` into `after` and was given `res`.
    pub open spec fn accessed(
        self,
        key: (usize, usize),
        after: CacheState,
        res: CacheResult,
    ) -> bool {
        let idx = res.block_idx;
        &&& res.is_hit == self.lookup.contains_key(key)
        &&& if res.is_hit {
            idx == self.lookup[key] && after == self.after_hit(idx)
        } else {
            self.would_use(idx) && after == self.after_miss(key, idx)
        }
        &&& res.buf_offset == self.blocks[idx as int].buf_offset
        &&& res.buf_vaddr == self.base_vaddr + res.buf_offset
    }

    /// The cache with the state of the block at `idx` replaced.
    pub open spec fn with_state(self, idx: usize, state: BlockState) -> CacheState {
        CacheState {
            blocks: self.blocks.update(
                idx as int,
                CacheBlock { state, ..self.blocks[idx as int] },
            ),
            ..self
        }
    }

    /// The cache after the block at `idx` was marked valid; nothing changes without such a block.
    pub open spec fn after_mark_valid(self, idx: usize) -> CacheState {
        if idx < self.blocks.len() {
            CacheState {
                stats: CacheLedgerStats {
                    mark_valid_calls: self.stats.mark_valid_calls.saturating_add(1),
                    ..self.stats
                },
                ..self.with_state(idx, BlockState::Valid)
            }
        } else {
            self
        }
    }

    /// The cache after the block at `idx` was marked dirty; nothing changes without such a block.
    pub open spec fn after_mark_dirty(self, idx: usize) -> CacheState {
        if idx < self.blocks.len() {
            CacheState {
                stats: CacheLedgerStats {
                    mark_dirty_calls: self.stats.mark_dirty_calls.saturating_add(1),
                    ..self.stats
                },
                ..self.with_state(idx, BlockState::Dirty)
            }
        } else {
            self
        }
    }

    /// The cache after the block at `idx` was invalidated: it is still looked up.
    pub open spec fn after_invalidate(self, idx: usize) -> CacheState {
        if idx < self.blocks.len() {
            self.with_state(idx, BlockState::Invalid)
        } else {
            self
        }
    }
}

/// A new cache: all blocks free and invalid.
pub open spec fn new_blocks(n: nat, block_size: usize) -> Seq<CacheBlock> {
    Seq::new(
        n,
        |i: int|
            CacheBlock {
                device_id: 0,
                sector_idx: 0,
                state: BlockState::Invalid,
                buf_offset: (i * block_size) as usize,
                last_access: 0,
            },
    )
}

/// How many blocks of a size fit in a buffer.
pub open spec fn blocks_in(total_size: usize, block_size: usize) -> nat {
    if block_size > 0 {
        (total_size as int / block_size as int) as nat
    } else {
        0
    }
}

/// A cache that was just made: all blocks are free, the least recently used one is replaced, and
/// writes go through.
pub open spec fn fresh_cache(
    base_vaddr: usize,
    total_size: usize,
    block_size: usize,
) -> CacheState {
    CacheState {
        base_vaddr,
        total_size,
        block_size,
        blocks: new_blocks(blocks_in(total_size, block_size), block_size),
        clock: 0,
        lookup: Map::empty(),
        free: Seq::new(blocks_in(total_size, block_size), |i: int| i as usize),
        may_evict: |blocks: Seq<CacheBlock>, idx: usize| lru::is_lru(blocks, idx as int),
        may_write_through: |block: CacheBlock, answer: bool| answer,
        may_flush_on_evict: |block: CacheBlock, answer: bool| !answer,
        told: None,
        stats: CacheLedgerStats::zero(),
    }
}

/// Block `i` of a buffer lies in the buffer.
pub proof fn lemma_block_fits(i: int, block_size: int, total_size: int)
    requires
        block_size > 0,
        0 <= i < total_size / block_size,
    ensures
        0 <= i * block_size,
        i * block_size + block_size <= total_size,
{
    vstd::arithmetic::div_mod::lemma_fundamental_div_mod(total_size, block_size);
    assert(i * block_size + block_size <= block_size * (total_size / block_size))
        by (nonlinear_arith)
        requires
            i + 1 <= total_size / block_size,
            block_size > 0,
    ;
    assert(0 <= i * block_size) by (nonlinear_arith)
        requires
            0 <= i,
            block_size > 0,
    ;
}

impl View for BufferCache {
    type V = CacheState;

    closed spec fn view(&self) -> CacheState {
        CacheState {
            base_vaddr: self.base_vaddr,
            total_size: self.total_size,
            block_size: self.block_size,
            blocks: self.blocks@,
            clock: self.access_counter,
            lookup: self.lookup@,
            free: self.free_blocks@,
            may_evict: |blocks: Seq<CacheBlock>, idx: usize| self.policy.may_evict(blocks, idx),
            may_write_through: |block: CacheBlock, answer: bool|
                self.write_policy.may_write_through(block, answer),
            may_flush_on_evict: |block: CacheBlock, answer: bool|
                self.write_policy.may_flush_on_evict(block, answer),
            told: self.policy.told(),
            stats: self.stats,
        }
    }
}

impl BufferCache {
    /// The invariant of the cache.
    pub open spec fn wf(&self) -> bool {
        self@.wf()
    }

    /// A cache over the buffer of `total_size` bytes at `base_vaddr`, which replaces the least
    /// recently used block and writes through.
    pub fn new(base_vaddr: usize, total_size: usize, block_size: usize) -> (r: Self)
        ensures
            r.wf(),
            r@.timely(),
            r@.replaces_lru(),
            r@ == fresh_cache(base_vaddr, total_size, block_size),
    {
        let num_blocks: usize = if block_size > 0 {
            total_size / block_size
        } else {
            0
        };
        let mut blocks: Vec<CacheBlock> = Vec::with_capacity(num_blocks);
        let mut free_blocks: Vec<usize> = Vec::with_capacity(num_blocks);
        let mut i: usize = 0;
        while i < num_blocks
            invariant
                i <= num_blocks,
                block_size > 0 ==> num_blocks == total_size / block_size,
                block_size == 0 ==> num_blocks == 0,
                blocks@ == new_blocks(i as nat, block_size),
                free_blocks@ == Seq::new(i as nat, |j: int| j as usize),
            decreases num_blocks - i,
        {
            proof {
                lemma_block_fits(i as int, block_size as int, total_size as int);
            }
            blocks.push(
                CacheBlock {
                    device_id: 0,
                    sector_idx: 0,
                    state: BlockState::Invalid,
                    buf_offset: i * block_size,
                    last_access: 0,
                },
            );
            free_blocks.push(i);
            i = i + 1;
            assert(blocks@ =~= new_blocks(i as nat, block_size));
            assert(free_blocks@ =~= Seq::new(i as nat, |j: int| j as usize));
        }
        let mut policy: Box<dyn ReplacementPolicy> = Box::new(LruPolicy);
        let mut write_policy: Box<dyn WritePolicy> = Box::new(WriteThrough);
        let mut cache = BufferCache {
            base_vaddr,
            total_size,
            block_size,
            num_blocks,
            blocks,
            access_counter: 0,
            lookup: BTreeMap::new(),
            free_blocks,
            policy: Box::new(LruPolicy),
            write_policy: Box::new(WriteThrough),
            stats: CacheLedgerStats::default(),
        };
        std::mem::swap(&mut cache.policy, &mut policy);
        std::mem::swap(&mut cache.write_policy, &mut write_policy);
        proof {
            lemma_fresh_wf(base_vaddr, total_size, block_size);
            assert(cache@ =~= fresh_cache(base_vaddr, total_size, block_size));
        }
        cache
    }

    /// Replaces the replacement policy.
    pub fn set_policy(&mut self, policy: Box<dyn ReplacementPolicy>)
        ensures
            final(self)@ == (CacheState {
                may_evict: |blocks: Seq<CacheBlock>, idx: usize| policy.may_evict(blocks, idx),
                told: policy.told(),
                ..old(self)@
            }),
    {
        let mut incoming = policy;
        std::mem::swap(&mut self.policy, &mut incoming);
    }

    /// Replaces the write policy.
    pub fn set_write_policy(&mut self, policy: Box<dyn WritePolicy>)
        ensures
            final(self)@ == (CacheState {
                may_write_through: |block: CacheBlock, answer: bool|
                    policy.may_write_through(block, answer),
                may_flush_on_evict: |block: CacheBlock, answer: bool|
                    policy.may_flush_on_evict(block, answer),
                ..old(self)@
            }),
    {
        let mut incoming = policy;
        std::mem::swap(&mut self.write_policy, &mut incoming);
    }

    /// Makes the cache replace the least recently used block.
    pub fn set_lru_policy(&mut self)
        ensures
            final(self)@ == (CacheState {
                may_evict: |blocks: Seq<CacheBlock>, idx: usize| lru::is_lru(blocks, idx as int),
                told: None,
                ..old(self)@
            }),
    {
        let mut incoming: Box<dyn ReplacementPolicy> = Box::new(LruPolicy);
        std::mem::swap(&mut self.policy, &mut incoming);
    }

    /// Makes the cache write through.
    pub fn set_write_through(&mut self)
        ensures
            final(self)@ == (CacheState {
                may_write_through: |block: CacheBlock, answer: bool| answer,
                may_flush_on_evict: |block: CacheBlock, answer: bool| !answer,
                ..old(self)@
            }),
    {
        let mut incoming: Box<dyn WritePolicy> = Box::new(WriteThrough);
        std::mem::swap(&mut self.write_policy, &mut incoming);
    }

    /// Whether a write to the block at `idx` goes to the device at once.
    pub fn should_write_through(&self, idx: usize) -> (r: bool)
        requires
            idx < self@.blocks.len(),
        ensures
            (self@.may_write_through)(self@.blocks[idx as int], r),
    {
        self.write_policy.should_write_through(&self.blocks[idx])
    }

    /// Whether the block at `idx` is flushed before it is evicted.
    pub fn needs_flush_on_evict(&self, idx: usize) -> (r: bool)
        requires
            idx < self@.blocks.len(),
        ensures
            (self@.may_flush_on_evict)(self@.blocks[idx as int], r),
    {
        self.write_policy.needs_flush_on_evict(&self.blocks[idx])
    }

    /// The size of a cache block.
    pub fn get_block_size(&self) -> (r: usize)
        ensures
            r == self@.block_size,
    {
        self.block_size
    }

    /// The address of the buffer.
    pub fn get_base_vaddr(&self) -> (r: usize)
        ensures
            r == self@.base_vaddr,
    {
        self.base_vaddr
    }

    /// The size of the buffer.
    pub fn get_total_size(&self) -> (r: usize)
        ensures
            r == self@.total_size,
    {
        self.total_size
    }

    /// Whether the cache has blocks and the address of each fits in the address space.
    pub fn is_usable(&self) -> (r: bool)
        requires
            self.wf(),
        ensures
            r == (self@.blocks.len() > 0 && self@.addressable()),
    {
        let n: usize = self.blocks.len();
        if n == 0 {
            return false;
        }
        let last: usize = self.blocks[n - 1].buf_offset;
        proof {
            let s = self@;
            assert forall|i: int| 0 <= i < s.blocks.len() implies (
            #[trigger] s.blocks[i]).buf_offset <= last by {
                assert(i * s.block_size <= (n - 1) * s.block_size) by (nonlinear_arith)
                    requires
                        i <= n - 1,
                ;
                assert(s.blocks[n - 1].buf_offset == (n - 1) * s.block_size);
            }
            assert(self.base_vaddr + last <= usize::MAX ==> s.addressable()) by {
                if self.base_vaddr + last <= usize::MAX {
                    assert forall|i: int| 0 <= i < s.blocks.len() implies s.base_vaddr + (
                    #[trigger] s.blocks[i]).buf_offset <= usize::MAX by {
                        assert(s.blocks[i].buf_offset <= last);
                    }
                }
            }
            assert(s.addressable() ==> s.base_vaddr + s.blocks[n - 1].buf_offset <= usize::MAX);
        }
        self.base_vaddr <= usize::MAX - last
    }

    /// Accesses the block that `sector_idx` of a device belongs to. If the block is cached, the
    /// access is a hit on it. Otherwise it gets the free block that is next in line, or the place
    /// of a block that the replacement policy gives up; the caller must then fill it.
    pub fn access_block(
        &mut self,
        device_id: usize,
        sector_idx: usize,
        sectors_per_cache_block: usize,
    ) -> (res: CacheResult)
        requires
            old(self).wf(),
            old(self)@.addressable(),
            old(self)@.blocks.len() > 0,
        ensures
            final(self).wf(),
            final(self)@.addressable(),
            old(self)@.accessed(
                (device_id, cache_sector(sector_idx, sectors_per_cache_block)),
                final(self)@,
                res,
            ),
            res.block_idx < old(self)@.blocks.len(),
    {
        let access_time: usize = self.access_counter;
        self.access_counter = self.access_counter.wrapping_add(1);
        let n: usize = if sectors_per_cache_block < 1 {
            1
        } else {
            sectors_per_cache_block
        };
        proof {
            vstd::arithmetic::div_mod::lemma_fundamental_div_mod(sector_idx as int, n as int);
            assert((sector_idx as int / n as int) * n == n * (sector_idx as int / n as int))
                by (nonlinear_arith);
        }
        let cache_sector_idx: usize = (sector_idx / n) * n;
        let key: (usize, usize) = (device_id, cache_sector_idx);

        if let Some(found) = self.lookup.get(&key) {
            let idx: usize = *found;
            self.stats.hits = self.stats.hits.saturating_add(1);
            self.blocks[idx].last_access = access_time;
            self.policy.on_access(idx);
            let buf_offset: usize = self.blocks[idx].buf_offset;
            proof {
                lemma_hit_keeps_wf(old(self)@, key);
                assert(self@ =~= old(self)@.after_hit(idx));
            }
            return CacheResult {
                buf_vaddr: self.base_vaddr + buf_offset,
                buf_offset,
                block_idx: idx,
                is_hit: true,
            };
        }
        self.stats.misses = self.stats.misses.saturating_add(1);
        let idx: usize = match self.free_blocks.pop() {
            Some(free_idx) => free_idx,
            None => {
                let lru_idx: usize = self.policy.select_evict(self.blocks.as_slice());
                self.stats.evictions = self.stats.evictions.saturating_add(1);
                if self.blocks[lru_idx].state == BlockState::Dirty {
                    self.stats.dirty_evictions = self.stats.dirty_evictions.saturating_add(1);
                }
                let old_key: (usize, usize) = (
                    self.blocks[lru_idx].device_id,
                    self.blocks[lru_idx].sector_idx,
                );
                self.lookup.remove(&old_key);
                lru_idx
            },
        };
        let buf_offset: usize = self.blocks[idx].buf_offset;
        self.blocks[idx] = CacheBlock {
            device_id,
            sector_idx: cache_sector_idx,
            state: BlockState::Invalid,
            buf_offset,
            last_access: access_time,
        };
        self.lookup.insert(key, idx);
        self.policy.on_access(idx);
        proof {
            lemma_miss_keeps_wf(old(self)@, key, idx);
            assert(self@ =~= old(self)@.after_miss(key, idx));
        }
        CacheResult {
            buf_vaddr: self.base_vaddr + buf_offset,
            buf_offset,
            block_idx: idx,
            is_hit: false,
        }
    }

    /// Marks the block at `idx` as filled; does nothing if there is no such block.
    pub fn mark_valid(&mut self, idx: usize)
        requires
            old(self).wf(),
        ensures
            final(self).wf(),
            final(self)@ == old(self)@.after_mark_valid(idx),
    {
        if idx < self.blocks.len() {
            self.blocks[idx].state = BlockState::Valid;
            self.stats.mark_valid_calls = self.stats.mark_valid_calls.saturating_add(1);
            proof {
                lemma_state_keeps_wf(old(self)@, idx, BlockState::Valid, self.stats);
                assert(self@ =~= old(self)@.after_mark_valid(idx));
            }
        }
    }

    /// Marks the block at `idx` as written to; does nothing if there is no such block.
    pub fn mark_dirty(&mut self, idx: usize)
        requires
            old(self).wf(),
        ensures
            final(self).wf(),
            final(self)@ == old(self)@.after_mark_dirty(idx),
    {
        if idx < self.blocks.len() {
            self.blocks[idx].state = BlockState::Dirty;
            self.stats.mark_dirty_calls = self.stats.mark_dirty_calls.saturating_add(1);
            proof {
                lemma_state_keeps_wf(old(self)@, idx, BlockState::Dirty, self.stats);
                assert(self@ =~= old(self)@.after_mark_dirty(idx));
            }
        }
    }

    /// Marks the block at `idx` as holding nothing; does nothing if there is no such block. The
    /// block stays assigned to its sectors.
    pub fn invalidate(&mut self, idx: usize)
        requires
            old(self).wf(),
        ensures
            final(self).wf(),
            final(self)@ == old(self)@.after_invalidate(idx),
    {
        if idx < self.blocks.len() {
            self.blocks[idx].state = BlockState::Invalid;
            proof {
                lemma_state_keeps_wf(old(self)@, idx, BlockState::Invalid, self.stats);
                assert(self@ =~= old(self)@.after_invalidate(idx));
            }
        }
    }

    /// The counters, and what the cache holds.
    pub fn ledger_snapshot(&self) -> (r: CacheLedgerSnapshot)
        ensures
            r == (CacheLedgerSnapshot {
                hits: self@.stats.hits,
                misses: self@.stats.misses,
                evictions: self@.stats.evictions,
                dirty_evictions: self@.stats.dirty_evictions,
                mark_valid_calls: self@.stats.mark_valid_calls,
                mark_dirty_calls: self@.stats.mark_dirty_calls,
                lookup_entries: self@.lookup.dom().len() as usize,
                free_blocks: self@.free.len() as usize,
                valid_blocks: count_state(self@.blocks, BlockState::Valid) as usize,
                dirty_blocks: count_state(self@.blocks, BlockState::Dirty) as usize,
            }),
            r.lookup_entries == self@.lookup.dom().len(),
            r.free_blocks == self@.free.len(),
            r.valid_blocks == count_state(self@.blocks, BlockState::Valid),
            r.dirty_blocks == count_state(self@.blocks, BlockState::Dirty),
            self.wf() ==> r.lookup_entries + r.free_blocks == self@.capacity(),
    {
        let mut valid_blocks: usize = 0;
        let mut dirty_blocks: usize = 0;
        let mut i: usize = 0;
        proof {
            reveal(Seq::filter);
            assert(self.blocks@.take(0) =~= Seq::<CacheBlock>::empty());
        }
        while i < self.blocks.len()
            invariant
                i <= self.blocks@.len(),
                valid_blocks == count_state(self.blocks@.take(i as int), BlockState::Valid),
                dirty_blocks == count_state(self.blocks@.take(i as int), BlockState::Dirty),
                valid_blocks <= i,
                dirty_blocks <= i,
            decreases self.blocks@.len() - i,
        {
            proof {
                reveal(Seq::filter);
                assert(self.blocks@.take(i + 1).drop_last() =~= self.blocks@.take(i as int));
            }
            match self.blocks[i].state {
                BlockState::Valid => {
                    valid_blocks = valid_blocks.saturating_add(1);
                },
                BlockState::Dirty => {
                    dirty_blocks = dirty_blocks.saturating_add(1);
                },
                _ => {},
            }
            i = i + 1;
        }
        assert(self.blocks@.take(i as int) =~= self.blocks@);
        CacheLedgerSnapshot {
            hits: self.stats.hits,
            misses: self.stats.misses,
            evictions: self.stats.evictions,
            dirty_evictions: self.stats.dirty_evictions,
            mark_valid_calls: self.stats.mark_valid_calls,
            mark_dirty_calls: self.stats.mark_dirty_calls,
            lookup_entries: self.lookup.len(),
            free_blocks: self.free_blocks.len(),
            valid_blocks,
            dirty_blocks,
        }
    }
}

/// A cache that was just made has the invariant.
pub proof fn lemma_fresh_wf(base_vaddr: usize, total_size: usize, block_size: usize)
    ensures
        fresh_cache(base_vaddr, total_size, block_size).wf(),
        base_vaddr + total_size <= usize::MAX ==> fresh_cache(
            base_vaddr,
            total_size,
            block_size,
        ).addressable(),
{
    let s = fresh_cache(base_vaddr, total_size, block_size);
    assert forall|i: int| 0 <= i < s.blocks.len() implies (#[trigger] s.blocks[i]).buf_offset == i
        * block_size && s.blocks[i].buf_offset <= total_size by {
        lemma_block_fits(i, block_size as int, total_size as int);
    }
    assert forall|i: usize| i < s.blocks.len() implies (#[trigger] s.in_use(i)
        <==> !s.free.contains(i)) by {
        assert(0 <= i < blocks_in(total_size, block_size));
        lemma_block_fits(i as int, block_size as int, total_size as int);
        assert(s.free[i as int] == i);
    }
    assert(s.free.no_duplicates()) by {
        assert forall|i: int, j: int| 0 <= i < j < s.free.len() implies s.free[i] != s.free[j] by {
            lemma_count_fits(j, block_size as int, total_size as int);
        }
    }
    assert forall|j: int| 0 <= j < s.free.len() implies #[trigger] s.free[j] < s.blocks.len() by {
        lemma_count_fits(j, block_size as int, total_size as int);
    }
}

/// The number of a block is no larger than the buffer.
proof fn lemma_count_fits(i: int, block_size: int, total_size: int)
    requires
        block_size > 0,
        0 <= i < total_size / block_size,
    ensures
        i <= total_size,
{
    lemma_block_fits(i, block_size, total_size);
    assert(i <= i * block_size) by (nonlinear_arith)
        requires
            0 <= i,
            block_size >= 1,
    ;
}

/// A hit keeps the invariant.
pub proof fn lemma_hit_keeps_wf(s: CacheState, key: (usize, usize))
    requires
        s.wf(),
        s.lookup.contains_key(key),
    ensures
        s.after_hit(s.lookup[key]).wf(),
        s.addressable() ==> s.after_hit(s.lookup[key]).addressable(),
{
    let t = s.after_hit(s.lookup[key]);
    assert forall|i: usize| i < t.blocks.len() implies (#[trigger] t.in_use(i)
        <==> !t.free.contains(i)) by {
        assert(s.in_use(i) == t.in_use(i));
    }
    assert forall|i: int| 0 <= i < t.blocks.len() implies (#[trigger] t.blocks[i]).buf_offset == i
        * t.block_size by {
        assert(s.blocks[i].buf_offset == i * s.block_size);
    }
    if s.addressable() {
        assert forall|i: int| 0 <= i < t.blocks.len() implies t.base_vaddr + (
        #[trigger] t.blocks[i]).buf_offset <= usize::MAX by {
            assert(s.base_vaddr + s.blocks[i].buf_offset <= usize::MAX);
        }
    }
}

/// A miss keeps the invariant.
pub proof fn lemma_miss_keeps_wf(s: CacheState, key: (usize, usize), idx: usize)
    requires
        s.wf(),
        !s.lookup.contains_key(key),
        s.would_use(idx),
    ensures
        idx < s.blocks.len(),
        s.after_miss(key, idx).wf(),
        s.addressable() ==> s.after_miss(key, idx).addressable(),
{
    let t = s.after_miss(key, idx);
    if s.free.len() > 0 {
        assert(s.free[s.free.len() - 1] == idx);
        assert(s.free.contains(idx));
    } else {
        assert(!s.free.contains(idx));
        assert(s.in_use(idx));
    }
    assert forall|i: usize| i < t.blocks.len() implies (#[trigger] t.in_use(i)
        <==> !t.free.contains(i)) by {
        if i != idx {
            assert(s.in_use(i) <==> !s.free.contains(i));
            if s.free.len() > 0 {
                if s.free.contains(i) {
                    let j = choose|j: int| 0 <= j < s.free.len() && s.free[j] == i;
                    assert(t.free[j] == i);
                }
                if t.free.contains(i) {
                    let j = choose|j: int| 0 <= j < t.free.len() && t.free[j] == i;
                    assert(s.free[j] == i);
                }
            }
        } else if s.free.len() > 0 && t.free.contains(i) {
            let j = choose|j: int| 0 <= j < t.free.len() && t.free[j] == i;
            assert(s.free[j] == s.free[s.free.len() - 1]);
        }
    }
    assert forall|k: (usize, usize)| #[trigger] t.lookup.contains_key(k) implies t.lookup[k]
        < t.blocks.len() && key_of(t.blocks[t.lookup[k] as int]) == k by {
        if k != key {
            assert(s.lookup.contains_key(k));
            if s.lookup[k] == idx {
                assert(key_of(s.blocks[idx as int]) == k);
                assert(s.in_use(idx));
            }
        }
    }
    assert forall|i: int| 0 <= i < t.blocks.len() implies (#[trigger] t.blocks[i]).buf_offset == i
        * t.block_size by {
        assert(s.blocks[i].buf_offset == i * s.block_size);
    }
    if s.addressable() {
        assert forall|i: int| 0 <= i < t.blocks.len() implies t.base_vaddr + (
        #[trigger] t.blocks[i]).buf_offset <= usize::MAX by {
            assert(s.base_vaddr + s.blocks[i].buf_offset <= usize::MAX);
        }
    }
}

/// Changing the state of a block keeps the invariant.
pub proof fn lemma_state_keeps_wf(
    s: CacheState,
    idx: usize,
    state: BlockState,
    stats: CacheLedgerStats,
)
    requires
        s.wf(),
        idx < s.blocks.len(),
        stats.misses == s.stats.misses,
        stats.evictions == s.stats.evictions,
        stats.dirty_evictions == s.stats.dirty_evictions,
    ensures
        (CacheState { stats, ..s.with_state(idx, state) }).wf(),
        s.addressable() ==> s.with_state(idx, state).addressable(),
{
    let t = CacheState { stats, ..s.with_state(idx, state) };
    assert forall|i: usize| i < t.blocks.len() implies (#[trigger] t.in_use(i)
        <==> !t.free.contains(i)) by {
        assert(s.in_use(i) == t.in_use(i));
    }
    assert forall|i: int| 0 <= i < t.blocks.len() implies (#[trigger] t.blocks[i]).buf_offset == i
        * t.block_size by {
        assert(s.blocks[i].buf_offset == i * s.block_size);
    }
    if s.addressable() {
        assert forall|i: int| 0 <= i < t.blocks.len() implies t.base_vaddr + (
        #[trigger] t.blocks[i]).buf_offset <= usize::MAX by {
            assert(s.base_vaddr + s.blocks[i].buf_offset <= usize::MAX);
        }
    }
}

/// What was accessed is found again: a second access to the same sectors is a hit on the same
/// block.
pub proof fn law_accessed_block_is_found_again(
    s: CacheState,
    key: (usize, usize),
    t: CacheState,
    first: CacheResult,
    u: CacheState,
    second: CacheResult,
)
    requires
        s.wf(),
        s.accessed(key, t, first),
        t.accessed(key, u, second),
    ensures
        second.is_hit,
        second.block_idx == first.block_idx,
        second.buf_offset == first.buf_offset,
        second.buf_vaddr == first.buf_vaddr,
{
    if !first.is_hit {
        lemma_miss_keeps_wf(s, key, first.block_idx);
    }
}

/// Different sectors never share a block.
pub proof fn law_sectors_do_not_share_blocks(s: CacheState, a: (usize, usize), b: (usize, usize))
    requires
        s.wf(),
        s.lookup.contains_key(a),
        s.lookup.contains_key(b),
        a != b,
    ensures
        s.lookup[a] != s.lookup[b],
{
}

/// The blocks lie side by side in the buffer: each inside it, and no two overlapping.
pub proof fn law_blocks_do_not_overlap(s: CacheState, i: int, j: int)
    requires
        s.wf(),
        0 <= i < j < s.blocks.len(),
    ensures
        s.blocks[i].buf_offset + s.block_size <= s.blocks[j].buf_offset,
        s.blocks[j].buf_offset + s.block_size <= s.total_size,
{
    lemma_block_fits(j, s.block_size as int, s.total_size as int);
    assert(i * s.block_size + s.block_size <= j * s.block_size) by (nonlinear_arith)
        requires
            i + 1 <= j,
    ;
}

/// Every access counts once: as a hit or as a miss.
pub proof fn law_access_counts_once(
    s: CacheState,
    key: (usize, usize),
    t: CacheState,
    res: CacheResult,
)
    requires
        s.wf(),
        s.accessed(key, t, res),
        s.stats.hits < usize::MAX,
        s.stats.misses < usize::MAX,
    ensures
        t.stats.hits + t.stats.misses == s.stats.hits + s.stats.misses + 1,
        t.stats.hits == s.stats.hits + 1 <==> s.lookup.contains_key(key),
{
}

/// The calls that change a cache.
pub enum CacheCall {
    /// An access to a block.
    Access,
    /// A mark on a block: valid, dirty or invalid.
    Mark,
    /// A new replacement policy.
    SetPolicy,
    /// A new write policy.
    SetWritePolicy,
}

/// A call changed the cache.
pub open spec fn called(before: CacheState, after: CacheState, call: CacheCall) -> bool {
    match call {
        CacheCall::Access => exists|key: (usize, usize), res: CacheResult| #[trigger]
            before.accessed(key, after, res),
        CacheCall::Mark => {
            ||| exists|idx: usize| after == #[trigger] before.after_mark_valid(idx)
            ||| exists|idx: usize| after == #[trigger] before.after_mark_dirty(idx)
            ||| exists|idx: usize| after == #[trigger] before.after_invalidate(idx)
        },
        CacheCall::SetPolicy => after == (CacheState {
            may_evict: after.may_evict,
            told: after.told,
            ..before
        }),
        CacheCall::SetWritePolicy => after == (CacheState {
            may_write_through: after.may_write_through,
            may_flush_on_evict: after.may_flush_on_evict,
            ..before
        }),
    }
}

/// A cache went through `states`, by one of `calls` after the other.
pub open spec fn lived(states: Seq<CacheState>, calls: Seq<CacheCall>) -> bool {
    &&& states.len() == calls.len() + 1
    &&& forall|i: int|
        0 <= i < calls.len() ==> #[trigger] called(states[i], states[i + 1], calls[i])
}

/// How many of the calls were accesses.
pub open spec fn count_accesses(calls: Seq<CacheCall>) -> nat
    decreases calls.len(),
{
    if calls.len() == 0 {
        0
    } else {
        count_accesses(calls.drop_last()) + (if calls.last() is Access {
            1nat
        } else {
            0
        })
    }
}

/// A history without its last call.
proof fn lemma_lived_before(states: Seq<CacheState>, calls: Seq<CacheCall>)
    requires
        lived(states, calls),
        calls.len() > 0,
    ensures
        lived(states.drop_last(), calls.drop_last()),
        called(states.drop_last().last(), states.last(), calls.last()),
{
    let n = calls.len() as int;
    assert(called(states[n - 1], states[n - 1 + 1], calls[n - 1]));
    let (earlier, fewer) = (states.drop_last(), calls.drop_last());
    assert forall|i: int| 0 <= i < fewer.len() implies #[trigger] called(
        earlier[i],
        earlier[i + 1],
        fewer[i],
    ) by {
        assert(called(states[i], states[i + 1], calls[i]));
    }
}

/// A write policy decides until another is set: whatever else was done with the cache since, what
/// may be answered about writes is what that policy may answer.
pub proof fn law_write_policy_decides(states: Seq<CacheState>, calls: Seq<CacheCall>, since: int)
    requires
        lived(states, calls),
        0 <= since <= calls.len(),
        forall|i: int| since <= i < calls.len() ==> !((#[trigger] calls[i]) is SetWritePolicy),
    ensures
        states.last().may_write_through == states[since].may_write_through,
        states.last().may_flush_on_evict == states[since].may_flush_on_evict,
    decreases calls.len(),
{
    if since < calls.len() {
        lemma_lived_before(states, calls);
        assert(!(calls[calls.len() - 1] is SetWritePolicy));
        law_write_policy_decides(states.drop_last(), calls.drop_last(), since);
    }
}

/// A cache whose write policy was never set writes through, and flushes nothing before it is
/// evicted.
pub proof fn law_writes_go_through_by_default(
    base_vaddr: usize,
    total_size: usize,
    block_size: usize,
    states: Seq<CacheState>,
    calls: Seq<CacheCall>,
    block: CacheBlock,
    answer: bool,
)
    requires
        lived(states, calls),
        states[0] == fresh_cache(base_vaddr, total_size, block_size),
        forall|i: int| 0 <= i < calls.len() ==> !((#[trigger] calls[i]) is SetWritePolicy),
    ensures
        (states.last().may_write_through)(block, answer) == answer,
        (states.last().may_flush_on_evict)(block, answer) == !answer,
{
    law_write_policy_decides(states, calls, 0);
}

/// A replacement policy decides until another is set.
pub proof fn law_replacement_policy_decides(
    states: Seq<CacheState>,
    calls: Seq<CacheCall>,
    since: int,
)
    requires
        lived(states, calls),
        0 <= since <= calls.len(),
        forall|i: int| since <= i < calls.len() ==> !((#[trigger] calls[i]) is SetPolicy),
    ensures
        states.last().may_evict == states[since].may_evict,
    decreases calls.len(),
{
    if since < calls.len() {
        lemma_lived_before(states, calls);
        assert(!(calls[calls.len() - 1] is SetPolicy));
        law_replacement_policy_decides(states.drop_last(), calls.drop_last(), since);
    }
}

/// The replacement policy is told of every access once, with the block that was given. What it
/// would give up matters exactly where nothing is found and no block is free: then the block is one
/// that it chooses among the blocks as they were, and otherwise the access would have gone the same
/// way under any other policy.
pub proof fn law_policy_chooses_when_no_block_is_free(
    s: CacheState,
    key: (usize, usize),
    t: CacheState,
    res: CacheResult,
    other: spec_fn(Seq<CacheBlock>, usize) -> bool,
)
    requires
        s.wf(),
        s.accessed(key, t, res),
    ensures
        t.told == policy::note_access(s.told, res.block_idx),
        !s.lookup.contains_key(key) && s.free.len() == 0 ==> (s.may_evict)(s.blocks, res.block_idx),
        s.lookup.contains_key(key) || s.free.len() > 0 ==> (CacheState {
            may_evict: other,
            ..s
        }).accessed(key, CacheState { may_evict: other, ..t }, res),
{
    if s.lookup.contains_key(key) {
        assert((CacheState { may_evict: other, ..s }).after_hit(res.block_idx) =~= (CacheState {
            may_evict: other,
            ..t
        }));
    } else if s.free.len() > 0 {
        assert((CacheState { may_evict: other, ..s }).after_miss(key, res.block_idx) =~= (
        CacheState { may_evict: other, ..t }));
    }
}

/// The ledger of a cache adds up, whatever was done with it: every access was a hit or a miss,
/// every block is looked up or free, what was missed is looked up now or was evicted, dirty
/// evictions are evictions, and no block is both valid and dirty. The counters must not have
/// reached their end.
pub proof fn law_ledger_adds_up(
    base_vaddr: usize,
    total_size: usize,
    block_size: usize,
    states: Seq<CacheState>,
    calls: Seq<CacheCall>,
)
    requires
        lived(states, calls),
        states[0] == fresh_cache(base_vaddr, total_size, block_size),
        states.last().stats.hits < usize::MAX,
        states.last().stats.misses < usize::MAX,
    ensures
        states.last().wf(),
        states.last().blocks.len() == blocks_in(total_size, block_size),
        states.last().stats.hits + states.last().stats.misses == count_accesses(calls),
        states.last().lookup.dom().len() + states.last().free.len() == blocks_in(
            total_size,
            block_size,
        ),
        states.last().stats.misses == states.last().lookup.dom().len()
            + states.last().stats.evictions,
        states.last().stats.dirty_evictions <= states.last().stats.evictions,
        count_state(states.last().blocks, BlockState::Valid) + count_state(
            states.last().blocks,
            BlockState::Dirty,
        ) <= blocks_in(total_size, block_size),
    decreases calls.len(),
{
    lemma_states_differ(states.last().blocks);
    if calls.len() == 0 {
        lemma_fresh_wf(base_vaddr, total_size, block_size);
    } else {
        let (earlier, fewer) = (states.drop_last(), calls.drop_last());
        let (s, t) = (earlier.last(), states.last());
        lemma_lived_before(states, calls);
        if calls.last() is Access {
            let (key, res) = choose|key: (usize, usize), res: CacheResult| #[trigger]
                s.accessed(key, t, res);
            law_ledger_adds_up(base_vaddr, total_size, block_size, earlier, fewer);
            if res.is_hit {
                lemma_hit_keeps_wf(s, key);
            } else {
                lemma_miss_keeps_wf(s, key, res.block_idx);
            }
        } else {
            law_ledger_adds_up(base_vaddr, total_size, block_size, earlier, fewer);
            lemma_other_calls_keep_wf(s, t, calls.last());
        }
    }
}

proof fn lemma_other_calls_keep_wf(s: CacheState, t: CacheState, call: CacheCall)
    requires
        s.wf(),
        !(call is Access),
        called(s, t, call),
    ensures
        t.wf(),
        t.blocks.len() == s.blocks.len(),
{
    if exists|idx: usize| t == #[trigger] s.after_mark_valid(idx) {
        let idx = choose|idx: usize| t == #[trigger] s.after_mark_valid(idx);
        if idx < s.blocks.len() {
            lemma_state_keeps_wf(s, idx, BlockState::Valid, t.stats);
        }
    } else if exists|idx: usize| t == #[trigger] s.after_mark_dirty(idx) {
        let idx = choose|idx: usize| t == #[trigger] s.after_mark_dirty(idx);
        if idx < s.blocks.len() {
            lemma_state_keeps_wf(s, idx, BlockState::Dirty, t.stats);
        }
    } else if exists|idx: usize| t == #[trigger] s.after_invalidate(idx) {
        let idx = choose|idx: usize| t == #[trigger] s.after_invalidate(idx);
        if idx < s.blocks.len() {
            lemma_state_keeps_wf(s, idx, BlockState::Invalid, t.stats);
        }
    } else {
        assert forall|i: usize| i < t.blocks.len() implies (#[trigger] t.in_use(i)
            <==> !t.free.contains(i)) by {
            assert(s.in_use(i) == t.in_use(i));
        }
    }
}

proof fn lemma_states_differ(blocks: Seq<CacheBlock>)
    ensures
        count_state(blocks, BlockState::Valid) + count_state(blocks, BlockState::Dirty)
            <= blocks.len(),
    decreases blocks.len(),
{
    reveal(Seq::filter);
    if blocks.len() > 0 {
        lemma_states_differ(blocks.drop_last());
    }
}

/// As long as a block is free, nothing that is cached is given up.
pub proof fn law_nothing_is_evicted_while_a_block_is_free(
    s: CacheState,
    key: (usize, usize),
    t: CacheState,
    res: CacheResult,
    other: (usize, usize),
)
    requires
        s.wf(),
        s.free.len() > 0,
        s.accessed(key, t, res),
        s.lookup.contains_key(other),
    ensures
        t.lookup.contains_key(other),
        t.lookup[other] == s.lookup[other],
        t.stats.evictions == s.stats.evictions,
{
}

/// An access gives up at most what one block held: all other sectors stay where they are.
pub proof fn law_access_gives_up_one_block(
    s: CacheState,
    key: (usize, usize),
    t: CacheState,
    res: CacheResult,
    other: (usize, usize),
)
    requires
        s.wf(),
        s.accessed(key, t, res),
        s.lookup.contains_key(other),
        s.lookup[other] != res.block_idx,
    ensures
        t.lookup.contains_key(other),
        t.lookup[other] == s.lookup[other],
{
    if !res.is_hit && s.free.len() == 0 {
        assert(!s.free.contains(res.block_idx));
        assert(s.in_use(res.block_idx));
    }
}

impl CacheState {
    /// Whether the policy is to give up the least recently used block.
    pub open spec fn replaces_lru(self) -> bool {
        forall|blocks: Seq<CacheBlock>, idx: usize| #[trigger]
            (self.may_evict)(blocks, idx) ==> lru::is_lru(blocks, idx as int)
    }

    /// Whether all blocks in use were last accessed before now.
    pub open spec fn timely(self) -> bool {
        forall|i: usize|
            i < self.blocks.len() && #[trigger] self.in_use(i) ==> self.blocks[i as int].last_access
                < self.clock
    }
}

/// Accesses keep the order of time, as long as the clock does not wrap.
pub proof fn law_access_keeps_time(
    s: CacheState,
    key: (usize, usize),
    t: CacheState,
    res: CacheResult,
)
    requires
        s.wf(),
        s.timely(),
        s.clock < usize::MAX,
        s.accessed(key, t, res),
    ensures
        t.timely(),
{
    if !res.is_hit {
        lemma_miss_keeps_wf(s, key, res.block_idx);
    }
    assert forall|i: usize| i < t.blocks.len() && #[trigger] t.in_use(i) implies t.blocks[
        i as int].last_access < t.clock by {
        if i != res.block_idx {
            assert(s.in_use(i));
        }
    }
}

/// With the default policy the block that was accessed last outlives the next access.
pub proof fn law_recent_block_stays(
    s: CacheState,
    key: (usize, usize),
    t: CacheState,
    first: CacheResult,
    next: (usize, usize),
    u: CacheState,
    second: CacheResult,
)
    requires
        s.wf(),
        s.timely(),
        s.replaces_lru(),
        s.clock < usize::MAX,
        s.blocks.len() >= 2,
        s.accessed(key, t, first),
        t.accessed(next, u, second),
    ensures
        u.lookup.contains_key(key),
        u.lookup[key] == first.block_idx,
{
    let mine = first.block_idx;
    if first.is_hit {
        lemma_hit_keeps_wf(s, key);
    } else {
        lemma_miss_keeps_wf(s, key, mine);
    }
    assert(t.lookup[key] == mine);
    if !second.is_hit {
        let gone = second.block_idx;
        if t.free.len() > 0 {
            assert(t.free[t.free.len() - 1] == gone);
            assert(t.free.contains(gone));
            assert(t.in_use(mine));
        } else {
            let other: usize = if mine == 0 {
                1
            } else {
                0
            };
            assert(t.in_use(other));
            assert(s.in_use(other));
            assert(lru::is_lru(t.blocks, gone as int));
            assert(t.blocks[gone as int].last_access <= t.blocks[other as int].last_access);
        }
        law_access_gives_up_one_block(t, next, u, second, key);
    }
}

/// A request as it stands in a submission ring.
#[derive(Debug, Clone, Copy, PartialEq, Eq, Structural)]
pub struct IoUringSqe {
    pub opcode: u8,
    pub addr: usize,
    pub len: u32,
    pub off: usize,
    pub user_data: usize,
}

/// Decides which requests can go to the device as they are.
pub struct IOBufferManager;

impl IOBufferManager {
    /// Whether a request starts and ends at block boundaries.
    pub open spec fn aligned(sqe: IoUringSqe, block_size: u32) -> bool {
        sqe.off as int % block_size as int == 0 && sqe.len as int % block_size as int == 0
    }

    /// Checks whether a request starts and ends at block boundaries.
    pub fn is_aligned(sqe: &IoUringSqe, block_size: u32) -> (r: bool)
        requires
            block_size > 0,
        ensures
            r == IOBufferManager::aligned(*sqe, block_size),
    {
        (sqe.off % block_size as usize == 0) && (sqe.len % block_size == 0)
    }
}

/// How a request was widened to whole blocks.
#[derive(Debug, Clone, Copy, PartialEq, Eq, Structural)]
pub struct BufferInfo {
    pub original_addr: usize,
    pub original_len: u32,
    pub original_offset: usize,
    pub aligned_offset: usize,
    pub aligned_len: u32,
    /// Whether the request is a write.
    pub is_write: bool,
    /// Whether the request reads blocks, changes them and writes them back.
    pub is_rmw: bool,
    /// The cache block that the request goes through.
    pub cache_idx: Option<usize>,
}

/// Whom a request in flight is answered to.
#[derive(Debug, Clone, Copy, PartialEq, Eq)]
pub struct RequestContext {
    pub client_badge: usize,
    pub client_user_data: usize,
    pub buffer_info: Option<BufferInfo>,
}

/// A cache block starts at a multiple of the sectors that it holds, and holds the sector that was
/// asked for.
pub proof fn law_cache_block_holds_its_sectors(sector: usize, n: usize)
    ensures
        n <= 1 ==> cache_sector(sector, n) == sector,
        n >= 1 ==> cache_sector(sector, n) as int % n as int == 0,
        n >= 1 ==> cache_sector(sector, n) <= sector < cache_sector(sector, n) + n,
{
    if n > 1 {
        let q = sector as int / n as int;
        vstd::arithmetic::div_mod::lemma_fundamental_div_mod(sector as int, n as int);
        assert(q * n == n * q) by (nonlinear_arith);
        vstd::arithmetic::div_mod::lemma_mod_multiples_basic(q, n as int);
    } else if n == 1 {
        vstd::arithmetic::div_mod::lemma_mod_self_0(1);
        assert(sector as int % 1 == 0);
    }
}

/// The blocks of a cache fill its buffer, but for less than a block.
pub proof fn law_blocks_fill_the_buffer(total_size: usize, block_size: usize)
    ensures
        block_size == 0 ==> blocks_in(total_size, block_size) == 0,
        block_size > 0 ==> blocks_in(total_size, block_size) * block_size <= total_size,
        block_size > 0 ==> total_size < (blocks_in(total_size, block_size) + 1) * block_size,
{
    if block_size > 0 {
        let n = total_size as int / block_size as int;
        vstd::arithmetic::div_mod::lemma_fundamental_div_mod(total_size as int, block_size as int);
        assert(n * block_size == block_size * n && (n + 1) * block_size == block_size * n
            + block_size) by (nonlinear_arith);
        assert(n >= 0) by (nonlinear_arith)
            requires
                block_size * n + total_size as int % block_size as int == total_size,
                total_size as int % (block_size as int) < block_size,
                total_size >= 0,
        ;
    }
}

/// A new cache holds nothing: its blocks lie one after the other in the buffer, all are free, the
/// last first, none was accessed, and nothing was counted. It gives up the least recently used
/// block, writes through, and flushes nothing.
pub proof fn law_new_cache_is_empty(base_vaddr: usize, total_size: usize, block_size: usize)
    ensures
        ({
            let s = fresh_cache(base_vaddr, total_size, block_size);
            &&& s.base_vaddr == base_vaddr
            &&& s.total_size == total_size
            &&& s.block_size == block_size
            &&& block_size == 0 ==> s.blocks.len() == 0
            &&& block_size > 0 ==> s.blocks.len() * block_size <= total_size < (s.blocks.len() + 1)
                * block_size
            &&& forall|i: int|
                #![trigger s.blocks[i]]
                0 <= i < s.blocks.len() ==> {
                    &&& s.blocks[i].buf_offset == i * block_size
                    &&& s.blocks[i].state == BlockState::Invalid
                    &&& s.blocks[i].last_access == 0
                }
            &&& s.free.len() == s.blocks.len()
            &&& forall|i: int| 0 <= i < s.free.len() ==> #[trigger] s.free[i] == i
            &&& s.clock == 0
            &&& s.lookup.dom().len() == 0
            &&& s.told is None
            &&& s.stats.hits == 0
            &&& s.stats.misses == 0
            &&& s.stats.evictions == 0
            &&& s.stats.dirty_evictions == 0
            &&& s.stats.mark_valid_calls == 0
            &&& s.stats.mark_dirty_calls == 0
            &&& forall|blocks: Seq<CacheBlock>, idx: usize| #[trigger]
                (s.may_evict)(blocks, idx) <==> lru::is_lru(blocks, idx as int)
            &&& forall|block: CacheBlock, answer: bool| #[trigger]
                (s.may_write_through)(block, answer) <==> answer
            &&& forall|block: CacheBlock, answer: bool| #[trigger]
                (s.may_flush_on_evict)(block, answer) <==> !answer
        }),
{
    law_blocks_fill_the_buffer(total_size, block_size);
    let s = fresh_cache(base_vaddr, total_size, block_size);
    assert forall|i: int| 0 <= i < s.blocks.len() implies (#[trigger] s.blocks[i]).buf_offset == i
        * block_size by {
        lemma_block_fits(i, block_size as int, total_size as int);
    }
    assert forall|i: int| 0 <= i < s.free.len() implies #[trigger] s.free[i] == i by {
        lemma_block_fits(i, block_size as int, total_size as int);
        lemma_count_fits(i, block_size as int, total_size as int);
    }
}

/// An access gives one block, whose place in the buffer is its number times the size of a block,
/// and changes no other. The block stands for what was accessed, and was accessed now. What it
/// holds stays if it was found, and is to be filled otherwise.
pub proof fn law_access_gives_one_block(
    s: CacheState,
    key: (usize, usize),
    t: CacheState,
    res: CacheResult,
)
    requires
        s.wf(),
        s.blocks.len() > 0,
        s.accessed(key, t, res),
    ensures
        ({
            let i = res.block_idx as int;
            &&& res.is_hit <==> s.lookup.contains_key(key)
            &&& res.is_hit ==> res.block_idx == s.lookup[key]
            &&& 0 <= i < s.blocks.len()
            &&& t.lookup.contains_key(key)
            &&& t.lookup[key] == res.block_idx
            &&& res.buf_offset == i * s.block_size
            &&& res.buf_vaddr - s.base_vaddr == res.buf_offset
            &&& t.blocks.len() == s.blocks.len()
            &&& forall|k: int|
                0 <= k < s.blocks.len() && k != i ==> #[trigger] t.blocks[k] == s.blocks[k]
            &&& t.blocks[i].device_id == key.0
            &&& t.blocks[i].sector_idx == key.1
            &&& t.blocks[i].buf_offset == s.blocks[i].buf_offset
            &&& t.blocks[i].last_access == s.clock
            &&& res.is_hit ==> t.blocks[i].state == s.blocks[i].state
            &&& !res.is_hit ==> t.blocks[i].state == BlockState::Invalid
            &&& s.clock < usize::MAX ==> t.clock == s.clock + 1
            &&& s.clock == usize::MAX ==> t.clock == 0
        }),
        t.base_vaddr == s.base_vaddr,
        t.total_size == s.total_size,
        t.block_size == s.block_size,
        t.may_evict == s.may_evict,
        t.may_write_through == s.may_write_through,
        t.may_flush_on_evict == s.may_flush_on_evict,
        s.told is None ==> t.told is None,
        s.told is Some ==> t.told == Some(s.told->0.push(res.block_idx)),
{
    assert(res.buf_offset == res.block_idx * s.block_size) by {
        assert(s.blocks[res.block_idx as int].buf_offset == res.block_idx * s.block_size);
    }
}

/// An access that finds nothing takes the last free block, and with none free the place of another
/// block, which the policy chooses and which is then no longer found; all else stays where it was.
pub proof fn law_access_makes_room(
    s: CacheState,
    key: (usize, usize),
    t: CacheState,
    res: CacheResult,
    other: (usize, usize),
)
    requires
        s.wf(),
        s.blocks.len() > 0,
        s.accessed(key, t, res),
        other != key,
    ensures
        res.is_hit ==> t.lookup == s.lookup && t.free == s.free,
        !res.is_hit && s.free.len() > 0 ==> {
            &&& res.block_idx == s.free[s.free.len() - 1]
            &&& t.free == s.free.take(s.free.len() - 1)
        },
        !res.is_hit && s.free.len() == 0 ==> {
            &&& (s.may_evict)(s.blocks, res.block_idx)
            &&& t.free.len() == 0
        },
        t.lookup.contains_key(other) <==> s.lookup.contains_key(other) && (res.is_hit
            || s.free.len() > 0 || s.lookup[other] != res.block_idx),
        t.lookup.contains_key(other) ==> t.lookup[other] == s.lookup[other],
{
    if !res.is_hit && s.free.len() > 0 {
        assert(t.free =~= s.free.take(s.free.len() - 1));
    }
    if !res.is_hit && s.free.len() == 0 {
        assert(s.in_use(res.block_idx));
    }
}

/// An access counts as a hit or as a miss, a miss without a free block also as an eviction, and as
/// a dirty one if the block was dirty.
pub proof fn law_access_is_counted(
    s: CacheState,
    key: (usize, usize),
    t: CacheState,
    res: CacheResult,
)
    requires
        s.accessed(key, t, res),
        s.stats.hits < usize::MAX,
        s.stats.misses < usize::MAX,
        s.stats.evictions < usize::MAX,
        s.stats.dirty_evictions < usize::MAX,
    ensures
        ({
            let evicts = !s.lookup.contains_key(key) && s.free.len() == 0;
            let dirty = s.blocks[res.block_idx as int].state == BlockState::Dirty;
            &&& s.lookup.contains_key(key) ==> t.stats.hits == s.stats.hits + 1
                && t.stats.misses == s.stats.misses
            &&& !s.lookup.contains_key(key) ==> t.stats.hits == s.stats.hits && t.stats.misses
                == s.stats.misses + 1
            &&& evicts ==> t.stats.evictions == s.stats.evictions + 1
            &&& !evicts ==> t.stats.evictions == s.stats.evictions
            &&& evicts && dirty ==> t.stats.dirty_evictions == s.stats.dirty_evictions + 1
            &&& !(evicts && dirty) ==> t.stats.dirty_evictions == s.stats.dirty_evictions
            &&& t.stats.mark_valid_calls == s.stats.mark_valid_calls
            &&& t.stats.mark_dirty_calls == s.stats.mark_dirty_calls
        }),
{
}

/// Counters stop at the largest number.
pub proof fn law_counters_stop(
    s: CacheState,
    key: (usize, usize),
    t: CacheState,
    res: CacheResult,
)
    requires
        s.accessed(key, t, res),
    ensures
        s.stats.hits == usize::MAX ==> t.stats.hits == usize::MAX,
        s.stats.misses == usize::MAX ==> t.stats.misses == usize::MAX,
        s.stats.evictions == usize::MAX ==> t.stats.evictions == usize::MAX,
        s.stats.dirty_evictions == usize::MAX ==> t.stats.dirty_evictions == usize::MAX,
{
}

/// Marking a block changes its state and nothing else of it, and no other block; valid and dirty
/// marks are counted, each on its own. Without such a block nothing happens.
pub proof fn law_marks_change_one_state(s: CacheState, idx: usize)
    requires
        s.stats.mark_valid_calls < usize::MAX,
        s.stats.mark_dirty_calls < usize::MAX,
    ensures
        idx >= s.blocks.len() ==> s.after_mark_valid(idx) == s && s.after_mark_dirty(idx) == s
            && s.after_invalidate(idx) == s,
        idx < s.blocks.len() ==> {
            let i = idx as int;
            let valid = s.after_mark_valid(idx);
            let dirty = s.after_mark_dirty(idx);
            let invalid = s.after_invalidate(idx);
            let old = s.blocks[i];
            &&& valid.blocks == s.blocks.update(i, valid.blocks[i])
            &&& dirty.blocks == s.blocks.update(i, dirty.blocks[i])
            &&& invalid.blocks == s.blocks.update(i, invalid.blocks[i])
            &&& valid.blocks[i].state == BlockState::Valid
            &&& dirty.blocks[i].state == BlockState::Dirty
            &&& invalid.blocks[i].state == BlockState::Invalid
            &&& valid.blocks[i] == (CacheBlock { state: BlockState::Valid, ..old })
            &&& dirty.blocks[i] == (CacheBlock { state: BlockState::Dirty, ..old })
            &&& invalid.blocks[i] == (CacheBlock { state: BlockState::Invalid, ..old })
            &&& valid.stats == (CacheLedgerStats {
                mark_valid_calls: (s.stats.mark_valid_calls + 1) as usize,
                ..s.stats
            })
            &&& dirty.stats == (CacheLedgerStats {
                mark_dirty_calls: (s.stats.mark_dirty_calls + 1) as usize,
                ..s.stats
            })
            &&& invalid.stats == s.stats
            &&& valid == (CacheState { blocks: valid.blocks, stats: valid.stats, ..s })
            &&& dirty == (CacheState { blocks: dirty.blocks, stats: dirty.stats, ..s })
            &&& invalid == (CacheState { blocks: invalid.blocks, ..s })
        },
{
}

/// Blocks in a state are counted one by one.
pub proof fn law_blocks_are_counted_one_by_one(
    blocks: Seq<CacheBlock>,
    block: CacheBlock,
    state: BlockState,
)
    ensures
        count_state(Seq::empty(), state) == 0,
        block.state == state ==> count_state(blocks.push(block), state) == count_state(
            blocks,
            state,
        ) + 1,
        block.state != state ==> count_state(blocks.push(block), state) == count_state(
            blocks,
            state,
        ),
{
    reveal(Seq::filter);
    assert(blocks.push(block).drop_last() =~= blocks);
}

/// A request goes to the device as it is exactly if it starts a whole number of blocks into it and
/// is a whole number of blocks long.
pub proof fn law_aligned_requests_are_whole_blocks(
    sqe: IoUringSqe,
    block_size: u32,
    start: nat,
    count: nat,
    over: nat,
    rest: nat,
)
    requires
        over < block_size,
        rest < block_size,
        sqe.off == start * block_size + over,
        sqe.len == count * block_size + rest,
    ensures
        IOBufferManager::aligned(sqe, block_size) <==> over == 0 && rest == 0,
{
    vstd::arithmetic::div_mod::lemma_fundamental_div_mod_converse(
        sqe.off as int,
        block_size as int,
        start as int,
        over as int,
    );
    vstd::arithmetic::div_mod::lemma_fundamental_div_mod_converse(
        sqe.len as int,
        block_size as int,
        count as int,
        rest as int,
    );
}

} // verus!
