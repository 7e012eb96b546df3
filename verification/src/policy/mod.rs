//! What the block cache is told to do: which block to give up, and when to write.
pub mod lru;
pub mod write_through;

pub use lru::LruPolicy;
pub use write_through::WriteThrough;

use crate::fossil::buffer::CacheBlock;
use vstd::prelude::*;

verus! {

/// What a policy was told, with one more access.
pub open spec fn note_access(told: Option<Seq<usize>>, block_idx: usize) -> Option<Seq<usize>> {
    match told {
        Some(accesses) => Some(accesses.push(block_idx)),
        None => None,
    }
}

/// Chooses the block that makes room for another.
pub trait ReplacementPolicy: Send + Sync {
    /// Whether the policy may answer `idx` when it is asked to choose among `blocks`. A policy
    /// that does not say may answer anything.
    open spec fn may_evict(&self, blocks: Seq<CacheBlock>, idx: usize) -> bool {
        idx < blocks.len()
    }

    /// The blocks whose accesses the policy was told of, in their order, if it keeps them. A
    /// policy that does not say keeps none.
    open spec fn told(&self) -> Option<Seq<usize>> {
        None
    }

    /// Takes note of an access. What the policy may answer does not depend on it, other than
    /// through the access times that the blocks carry.
    fn on_access(&mut self, block_idx: usize)
        ensures
            final(self).told() == note_access(old(self).told(), block_idx),
            forall|blocks: Seq<CacheBlock>, idx: usize| #[trigger]
                final(self).may_evict(blocks, idx) == old(self).may_evict(blocks, idx),
    ;

    /// Chooses one of the blocks, where there are any.
    fn select_evict(&self, blocks: &[CacheBlock]) -> (idx: usize)
        ensures
            blocks@.len() > 0 ==> idx < blocks@.len(),
            blocks@.len() > 0 ==> self.may_evict(blocks@, idx),
    ;
}

/// Decides when blocks are written to the device.
pub trait WritePolicy: Send + Sync {
    /// Whether the policy may answer `answer` when it is asked whether a write to `block` goes to
    /// the device at once. A policy that does not say may answer anything.
    open spec fn may_write_through(&self, block: CacheBlock, answer: bool) -> bool {
        true
    }

    /// Whether the policy may answer `answer` when it is asked whether `block` is flushed before
    /// it is evicted. A policy that does not say may answer anything.
    open spec fn may_flush_on_evict(&self, block: CacheBlock, answer: bool) -> bool {
        true
    }

    /// Decides whether to write through to disk immediately.
    fn should_write_through(&self, block: &CacheBlock) -> (r: bool)
        ensures
            self.may_write_through(*block, r),
    ;

    /// Decides whether the block needs a flush before eviction.
    fn needs_flush_on_evict(&self, block: &CacheBlock) -> (r: bool)
        ensures
            self.may_flush_on_evict(*block, r),
    ;
}

} // verus!
