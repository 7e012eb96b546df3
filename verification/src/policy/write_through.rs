//! Write through.
use super::WritePolicy;
use crate::fossil::buffer::CacheBlock;
use vstd::prelude::*;

verus! {

/// Writes every block at once, so that none needs a flush.
pub struct WriteThrough;

impl WritePolicy for WriteThrough {
    open spec fn may_write_through(&self, _block: CacheBlock, answer: bool) -> bool {
        answer
    }

    open spec fn may_flush_on_evict(&self, _block: CacheBlock, answer: bool) -> bool {
        !answer
    }

    fn should_write_through(&self, _block: &CacheBlock) -> (r: bool) {
        true
    }

    fn needs_flush_on_evict(&self, _block: &CacheBlock) -> (r: bool) {
        false
    }
}

} // verus!
