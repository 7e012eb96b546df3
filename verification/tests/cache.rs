use fossil::fossil::buffer::{
    BlockState, BufferCache, CacheBlock, CacheLedgerSnapshot, CacheLedgerStats, IOBufferManager,
    IoUringSqe,
};
use fossil::policy::{LruPolicy, ReplacementPolicy, WritePolicy, WriteThrough};
use std::sync::{Arc, Mutex};

struct First;

impl ReplacementPolicy for First {
    fn on_access(&mut self, _block_idx: usize) {}

    fn select_evict(&self, _blocks: &[CacheBlock]) -> usize {
        0
    }
}

struct Noting {
    told: Arc<Mutex<Vec<usize>>>,
}

impl ReplacementPolicy for Noting {
    fn on_access(&mut self, block_idx: usize) {
        self.told.lock().unwrap().push(block_idx);
    }

    fn select_evict(&self, _blocks: &[CacheBlock]) -> usize {
        1
    }
}

struct WriteBack;

impl WritePolicy for WriteBack {
    fn should_write_through(&self, _block: &CacheBlock) -> bool {
        false
    }

    fn needs_flush_on_evict(&self, block: &CacheBlock) -> bool {
        block.state == BlockState::Dirty
    }
}

fn block(last_access: usize) -> CacheBlock {
    CacheBlock { device_id: 0, sector_idx: 0, state: BlockState::Valid, buf_offset: 0, last_access }
}

#[test]
fn cache_divides_its_buffer() {
    let c = BufferCache::new(0x1000, 4 * 4096 + 100, 4096);
    assert_eq!(c.get_block_size(), 4096);
    assert_eq!(c.get_base_vaddr(), 0x1000);
    let s = c.ledger_snapshot();
    assert_eq!((s.lookup_entries, s.free_blocks), (0, 4));
    assert_eq!(BufferCache::new(0, 100, 0).ledger_snapshot().free_blocks, 0);
}

#[test]
fn accessed_block_is_found_again() {
    let mut c = BufferCache::new(0x1000, 2 * 4096, 4096);
    let a = c.access_block(1, 17, 8);
    assert!(!a.is_hit);
    assert_eq!((a.block_idx, a.buf_offset, a.buf_vaddr), (1, 4096, 0x1000 + 4096));
    let b = c.access_block(1, 23, 8);
    assert!(b.is_hit);
    assert_eq!((b.block_idx, b.buf_offset), (1, 4096));
    let d = c.access_block(1, 24, 8);
    assert!(!d.is_hit);
    assert_eq!(d.block_idx, 0);
    let e = c.access_block(1, 16, 0);
    assert!(e.is_hit);
}

#[test]
fn least_recently_used_block_is_given_up() {
    let mut c = BufferCache::new(0, 2 * 4096, 4096);
    let a = c.access_block(1, 0, 1).block_idx;
    let b = c.access_block(2, 0, 1).block_idx;
    c.access_block(1, 0, 1);
    let evicted = c.access_block(3, 0, 1);
    assert_eq!(evicted.block_idx, b);
    assert!(c.access_block(1, 0, 1).is_hit);
    assert_eq!(c.access_block(1, 0, 1).block_idx, a);
    let s = c.ledger_snapshot();
    assert_eq!((s.hits, s.misses, s.evictions, s.dirty_evictions), (3, 3, 1, 0));
    assert_eq!(s.lookup_entries + s.free_blocks, 2);
}

#[test]
fn dirty_evictions_are_counted() {
    let mut c = BufferCache::new(0, 4096, 4096);
    let a = c.access_block(1, 0, 1);
    c.mark_dirty(a.block_idx);
    assert_eq!(c.ledger_snapshot().dirty_blocks, 1);
    c.access_block(2, 0, 1);
    let s = c.ledger_snapshot();
    assert_eq!((s.evictions, s.dirty_evictions, s.mark_dirty_calls, s.dirty_blocks), (1, 1, 1, 0));
}

#[test]
fn marks_need_a_block() {
    let mut c = BufferCache::new(0, 2 * 4096, 4096);
    c.mark_valid(2);
    c.mark_dirty(7);
    c.invalidate(2);
    let s = c.ledger_snapshot();
    assert_eq!((s.mark_valid_calls, s.mark_dirty_calls), (0, 0));
    c.mark_valid(1);
    let s = c.ledger_snapshot();
    assert_eq!((s.mark_valid_calls, s.valid_blocks), (1, 1));
}

#[test]
fn invalidated_block_is_still_looked_up() {
    let mut c = BufferCache::new(0, 2 * 4096, 4096);
    let a = c.access_block(1, 0, 1);
    c.mark_valid(a.block_idx);
    c.invalidate(a.block_idx);
    assert_eq!(c.ledger_snapshot().valid_blocks, 0);
    assert!(c.access_block(1, 0, 1).is_hit);
}

#[test]
fn replacement_policy_can_be_replaced() {
    let mut c = BufferCache::new(0, 2 * 4096, 4096);
    c.set_policy(Box::new(First));
    c.access_block(1, 0, 1);
    c.access_block(2, 0, 1);
    c.access_block(2, 0, 1);
    assert_eq!(c.access_block(3, 0, 1).block_idx, 0);
    assert_eq!(c.access_block(4, 0, 1).block_idx, 0);
    c.set_lru_policy();
    assert_eq!(c.access_block(5, 0, 1).block_idx, 1);
}

#[test]
fn write_policy_can_be_replaced() {
    let mut c = BufferCache::new(0, 2 * 4096, 4096);
    assert!(c.should_write_through(0));
    assert!(!c.needs_flush_on_evict(0));
    c.set_write_policy(Box::new(WriteBack));
    c.mark_dirty(1);
    assert!(!c.should_write_through(0));
    assert!(!c.needs_flush_on_evict(0));
    assert!(c.needs_flush_on_evict(1));
    c.set_write_through();
    assert!(c.should_write_through(1));
    assert!(!c.needs_flush_on_evict(1));
}

#[test]
fn usable_cache_has_blocks_within_the_address_space() {
    assert!(BufferCache::new(0x1000, 8192, 4096).is_usable());
    assert!(!BufferCache::new(0x1000, 4095, 4096).is_usable());
    assert!(BufferCache::new(usize::MAX - 4096, 8192, 4096).is_usable());
    assert!(!BufferCache::new(usize::MAX - 4095, 8192, 4096).is_usable());
}

#[test]
fn lru_takes_the_first_of_the_oldest() {
    assert_eq!(LruPolicy.select_evict(&[block(5), block(3), block(9), block(3)]), 1);
    assert_eq!(LruPolicy.select_evict(&[block(usize::MAX), block(usize::MAX)]), 0);
}

#[test]
fn write_through_never_waits() {
    assert!(WriteThrough.should_write_through(&block(0)));
    assert!(!WriteThrough.needs_flush_on_evict(&block(0)));
}

#[test]
fn counters_start_at_zero() {
    let s = CacheLedgerStats::default();
    assert_eq!((s.hits, s.misses, s.evictions, s.dirty_evictions), (0, 0, 0, 0));
    assert_eq!((s.mark_valid_calls, s.mark_dirty_calls), (0, 0));
    let t = CacheLedgerSnapshot::default();
    assert_eq!((t.hits, t.lookup_entries, t.free_blocks, t.valid_blocks), (0, 0, 0, 0));
}

#[test]
fn alignment_looks_at_offset_and_length() {
    let sqe = |off, len| IoUringSqe { opcode: 0, addr: 3, len, off, user_data: 0 };
    assert!(IOBufferManager::is_aligned(&sqe(1024, 512), 512));
    assert!(!IOBufferManager::is_aligned(&sqe(1025, 512), 512));
    assert!(!IOBufferManager::is_aligned(&sqe(1024, 100), 512));
    assert!(IOBufferManager::is_aligned(&sqe(0, 0), 4096));
}

#[test]
fn policy_is_told_of_every_access_once() {
    let told = Arc::new(Mutex::new(Vec::new()));
    let mut c = BufferCache::new(0, 2 * 4096, 4096);
    c.set_policy(Box::new(Noting { told: told.clone() }));
    let mut given = Vec::new();
    for sector in [0, 8, 0, 16, 8, 16] {
        given.push(c.access_block(1, sector, 8).block_idx);
    }
    assert_eq!(given, vec![1, 0, 1, 1, 0, 1]);
    assert_eq!(*told.lock().unwrap(), given);
}

#[test]
fn lru_of_no_blocks_is_the_first() {
    assert_eq!(LruPolicy.select_evict(&[]), 0);
}

#[test]
fn ledger_adds_up() {
    let mut c = BufferCache::new(0, 3 * 4096, 4096);
    for (n, sector) in [0, 8, 16, 0, 24, 32, 8, 8, 40, 0].into_iter().enumerate() {
        let res = c.access_block(1, sector, 8);
        match n % 3 {
            0 => c.mark_dirty(res.block_idx),
            1 => c.mark_valid(res.block_idx),
            _ => c.invalidate(res.block_idx),
        }
        let s = c.ledger_snapshot();
        assert_eq!(s.hits + s.misses, n + 1);
        assert_eq!(s.lookup_entries + s.free_blocks, 3);
        assert_eq!(s.misses, s.lookup_entries + s.evictions);
        assert!(s.dirty_evictions <= s.evictions);
        assert!(s.valid_blocks + s.dirty_blocks <= 3);
    }
    let s = c.ledger_snapshot();
    assert_eq!((s.hits, s.misses, s.evictions), (2, 8, 5));
}

#[test]
fn policies_stay_until_others_are_set() {
    let mut c = BufferCache::new(0, 2 * 4096, 4096);
    assert!(c.should_write_through(0) && !c.needs_flush_on_evict(0));
    c.set_write_policy(Box::new(WriteBack));
    c.set_policy(Box::new(First));
    for sector in [0, 8, 16] {
        let res = c.access_block(1, sector, 8);
        c.mark_dirty(res.block_idx);
    }
    assert!(!c.should_write_through(1) && c.needs_flush_on_evict(1));
    assert_eq!(c.access_block(1, 24, 8).block_idx, 0);
}
