//! Least recently used.
use super::ReplacementPolicy;
use crate::fossil::buffer::CacheBlock;
use vstd::prelude::*;

verus! {

/// Gives up the block whose last access is longest ago.
pub struct LruPolicy;

/// Whether `idx` is the first of the blocks that were accessed longest ago.
pub open spec fn is_lru(blocks: Seq<CacheBlock>, idx: int) -> bool {
    &&& 0 <= idx < blocks.len()
    &&& forall|j: int|
        0 <= j < blocks.len() ==> blocks[idx].last_access <= (#[trigger] blocks[j]).last_access
    &&& forall|j: int| 0 <= j < idx ==> blocks[idx].last_access < (#[trigger] blocks[j]).last_access
}

impl ReplacementPolicy for LruPolicy {
    open spec fn may_evict(&self, blocks: Seq<CacheBlock>, idx: usize) -> bool {
        is_lru(blocks, idx as int)
    }

    fn on_access(&mut self, _block_idx: usize) {
    }

    fn select_evict(&self, blocks: &[CacheBlock]) -> (idx: usize)
        ensures
            blocks@.len() == 0 ==> idx == 0,
    {
        let mut lru_idx: usize = 0;
        let mut min_access: usize = usize::MAX;
        let mut i: usize = 0;
        while i < blocks.len()
            invariant
                i <= blocks@.len(),
                lru_idx == 0 || lru_idx < i,
                i > 0 ==> min_access == blocks@[lru_idx as int].last_access,
                i == 0 ==> min_access == usize::MAX && lru_idx == 0,
                forall|j: int| 0 <= j < i ==> min_access <= (#[trigger] blocks@[j]).last_access,
                forall|j: int|
                    0 <= j < lru_idx ==> min_access < (#[trigger] blocks@[j]).last_access,
            decreases blocks@.len() - i,
        {
            if blocks[i].last_access < min_access {
                min_access = blocks[i].last_access;
                lru_idx = i;
            }
            i = i + 1;
        }
        lru_idx
    }
}

/// The block that is given up was accessed before all blocks in front of it, and no block was
/// accessed before it; so there is never a choice.
pub proof fn law_the_oldest_block_is_given_up(blocks: Seq<CacheBlock>, idx: int, other: int)
    requires
        is_lru(blocks, idx),
        0 <= other < blocks.len(),
    ensures
        blocks[idx].last_access <= blocks[other].last_access,
        other < idx ==> blocks[idx].last_access < blocks[other].last_access,
        is_lru(blocks, other) ==> other == idx,
{
}

} // verus!
