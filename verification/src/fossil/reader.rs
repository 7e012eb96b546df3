//! Reading a device through the block cache.
//!
//! The bytes of the cache live in one buffer, the arena, which the caller hands in; the devices
//! are a closure that reads whole blocks.
use super::buffer;
use super::buffer::{BufferCache, CacheResult, CacheState};
use crate::error::Error;
use vstd::prelude::*;

verus! {

/// `a` with `b` written over it from `at` on.
pub open spec fn put(a: Seq<u8>, at: int, b: Seq<u8>) -> Seq<u8> {
    Seq::new(
        a.len(),
        |k: int|
            if at <= k < at + b.len() {
                b[k - at]
            } else {
                a[k]
            },
    )
}

/// Which results the devices may give, for a device, a block number and a block size.
pub type DeviceAnswers = spec_fn(usize, usize, usize, Result<Vec<u8>, Error>) -> bool;

/// The results that a closure which reads devices may give.
pub open spec fn answers<D: Fn(usize, usize, usize) -> Result<Vec<u8>, Error>>(
    dev: D,
) -> DeviceAnswers {
    |hw_id: usize, lba: usize, block_size: usize, out: Result<Vec<u8>, Error>|
        call_ensures(dev, (hw_id, lba, block_size), out)
}

/// A read that succeeds gives one block of the size asked for.
pub open spec fn gives_blocks(dev: DeviceAnswers) -> bool {
    forall|hw_id: usize, lba: usize, block_size: usize, out: Result<Vec<u8>, Error>| #[trigger]
        dev(hw_id, lba, block_size, out) ==> (out matches Ok(bytes) ==> bytes@.len() == block_size)
}

/// What is needed of the closure that reads devices: it may be asked for any block of any device,
/// and it gives whole blocks.
pub open spec fn reads_blocks<D: Fn(usize, usize, usize) -> Result<Vec<u8>, Error>>(
    dev: D,
) -> bool {
    &&& forall|hw_id: usize, lba: usize, block_size: usize| #[trigger]
        call_requires(dev, (hw_id, lba, block_size))
    &&& gives_blocks(answers(dev))
}

/// A cache and the bytes that its blocks hold.
#[verifier::ext_equal]
pub struct Store {
    pub cache: CacheState,
    pub arena: Seq<u8>,
}

/// A result with its bytes as a sequence.
pub open spec fn seen(r: Result<Vec<u8>, Error>) -> Result<Seq<u8>, Error> {
    match r {
        Ok(bytes) => Ok(bytes@),
        Err(e) => Err(e),
    }
}

/// The bytes of a result, if it has any.
pub open spec fn got(r: Result<Seq<u8>, Error>) -> Option<Seq<u8>> {
    match r {
        Ok(bytes) => Some(bytes),
        Err(_) => None,
    }
}

/// How many device blocks a cache block holds.
pub open spec fn sectors_per_block(cache_block_size: usize, block_size: usize) -> usize {
    if cache_block_size / block_size < 1 {
        1
    } else {
        cache_block_size / block_size
    }
}

impl Store {
    /// Whether the store can serve a device with blocks of `block_size` bytes.
    pub open spec fn can_serve(self, block_size: usize) -> bool {
        &&& self.cache.wf()
        &&& self.cache.addressable()
        &&& self.cache.blocks.len() > 0
        &&& 0 < block_size <= self.cache.block_size
        &&& self.arena.len() == self.cache.total_size
    }

    /// Whether two stores are laid out alike.
    pub open spec fn same_layout(self, other: Store) -> bool {
        &&& self.cache.base_vaddr == other.cache.base_vaddr
        &&& self.cache.total_size == other.cache.total_size
        &&& self.cache.block_size == other.cache.block_size
        &&& self.cache.blocks.len() == other.cache.blocks.len()
        &&& self.arena.len() == other.arena.len()
    }
}

/// Blocks `i` to `n` after `base` were read from the device, one by one, to their places from `at`
/// on: all of them, or up to the first that failed.
pub open spec fn filled(
    dev: DeviceAnswers,
    hw_id: usize,
    base: usize,
    block_size: usize,
    at: int,
    i: int,
    n: int,
    before: Seq<u8>,
    after: Seq<u8>,
    failed: Option<Error>,
) -> bool
    decreases n - i,
{
    if i >= n {
        after == before && failed is None
    } else {
        exists|out: Result<Vec<u8>, Error>| #[trigger]
            dev(hw_id, base.wrapping_add(i as usize), block_size, out)
                && match out {
                Err(e) => after == before && failed == Some(e),
                Ok(bytes) => filled(
                    dev,
                    hw_id,
                    base,
                    block_size,
                    at,
                    i + 1,
                    n,
                    put(before, at + i * block_size, bytes@),
                    after,
                    failed,
                ),
            }
    }
}

/// One block was read through the cache: from the arena, which on a miss was first filled from the
/// device. A fill that fails leaves the block assigned, but not valid.
pub open spec fn block_read(
    dev: DeviceAnswers,
    hw_id: usize,
    block_size: usize,
    lba: usize,
    before: Store,
    after: Store,
    r: Result<Seq<u8>, Error>,
) -> bool {
    let n = sectors_per_block(before.cache.block_size, block_size);
    let base = buffer::cache_sector(lba, n);
    exists|accessed: CacheState, res: CacheResult|
        {
            let at = res.buf_offset + (lba - base) * block_size;
            let block = Ok::<Seq<u8>, Error>(after.arena.subrange(at, at + block_size));
            &&& #[trigger] before.cache.accessed((hw_id, base), accessed, res)
            &&& if res.is_hit {
                after.arena == before.arena && after.cache == accessed && r == block
            } else {
                exists|failed: Option<Error>|
                    {
                        &&& #[trigger] filled(
                            dev,
                            hw_id,
                            base,
                            block_size,
                            res.buf_offset as int,
                            0,
                            n as int,
                            before.arena,
                            after.arena,
                            failed,
                        )
                        &&& match failed {
                            None => after.cache == accessed.after_mark_valid(res.block_idx) && r
                                == block,
                            Some(e) => after.cache == accessed && r == Err::<Seq<u8>, Error>(e),
                        }
                    }
            }
        }
}

fn put_bytes(arena: &mut [u8], at: usize, bytes: &[u8])
    requires
        at + bytes@.len() <= old(arena)@.len(),
    ensures
        final(arena)@ == put(old(arena)@, at as int, bytes@),
{
    let n: usize = bytes.len();
    let mut i: usize = 0;
    assert(arena@ =~= put(old(arena)@, at as int, bytes@.take(0)));
    assert(at + n <= arena.len());
    while i < n
        invariant
            i <= n,
            n == bytes@.len(),
            at + n <= usize::MAX,
            at + n <= old(arena)@.len(),
            arena@ == put(old(arena)@, at as int, bytes@.take(i as int)),
        decreases n - i,
    {
        arena[at + i] = bytes[i];
        i = i + 1;
        assert(arena@ =~= put(old(arena)@, at as int, bytes@.take(i as int)));
    }
    assert(bytes@.take(n as int) =~= bytes@);
}

fn fill_block<D: Fn(usize, usize, usize) -> Result<Vec<u8>, Error>>(
    arena: &mut [u8],
    dev: &D,
    hw_id: usize,
    base: usize,
    block_size: usize,
    at: usize,
    n: usize,
) -> (failed: Option<Error>)
    requires
        reads_blocks(*dev),
        at + n * block_size <= old(arena)@.len(),
    ensures
        final(arena)@.len() == old(arena)@.len(),
        filled(
            answers(*dev),
            hw_id,
            base,
            block_size,
            at as int,
            0,
            n as int,
            old(arena)@,
            final(arena)@,
            failed,
        ),
{
    let ghost start = arena@;
    let mut i: usize = 0;
    while i < n
        invariant
            i <= n,
            reads_blocks(*dev),
            start == old(arena)@,
            arena@.len() == start.len(),
            at + n * block_size <= start.len(),
            forall|after: Seq<u8>, failed: Option<Error>| #[trigger]
                filled(
                    answers(*dev),
                    hw_id,
                    base,
                    block_size,
                    at as int,
                    i as int,
                    n as int,
                    arena@,
                    after,
                    failed,
                ) ==> filled(
                    answers(*dev),
                    hw_id,
                    base,
                    block_size,
                    at as int,
                    0,
                    n as int,
                    start,
                    after,
                    failed,
                ),
        decreases n - i,
    {
        let ghost now = arena@;
        let out = dev(hw_id, base.wrapping_add(i), block_size);
        assert(answers(*dev)(hw_id, base.wrapping_add((i as int) as usize), block_size, out));
        match out {
            Err(e) => {
                assert(filled(
                    answers(*dev),
                    hw_id,
                    base,
                    block_size,
                    at as int,
                    i as int,
                    n as int,
                    now,
                    now,
                    Some(e),
                ));
                return Some(e);
            },
            Ok(bytes) => {
                assert(i * block_size + block_size <= n * block_size) by (nonlinear_arith)
                    requires
                        i + 1 <= n,
                ;
                assert(start.len() == arena.len());
                put_bytes(arena, at + i * block_size, bytes.as_slice());
                proof {
                    assert forall|after: Seq<u8>, failed: Option<Error>| #[trigger]
                        filled(
                            answers(*dev),
                            hw_id,
                            base,
                            block_size,
                            at as int,
                            i + 1,
                            n as int,
                            arena@,
                            after,
                            failed,
                        ) implies filled(
                        answers(*dev),
                        hw_id,
                        base,
                        block_size,
                        at as int,
                        0,
                        n as int,
                        start,
                        after,
                        failed,
                    ) by {
                        assert(filled(
                            answers(*dev),
                            hw_id,
                            base,
                            block_size,
                            at as int,
                            i as int,
                            n as int,
                            now,
                            after,
                            failed,
                        ));
                    }
                }
            },
        }
        i = i + 1;
    }
    assert(filled(
        answers(*dev),
        hw_id,
        base,
        block_size,
        at as int,
        i as int,
        n as int,
        arena@,
        arena@,
        None,
    ));
    None
}

/// A cache block holds the device blocks that are read into it.
pub proof fn lemma_block_room(cache: CacheState, block_size: usize, idx: int)
    requires
        cache.wf(),
        0 < block_size <= cache.block_size,
        0 <= idx < cache.blocks.len(),
    ensures
        ({
            let n = sectors_per_block(cache.block_size, block_size);
            &&& 0 < n
            &&& n * block_size <= cache.block_size
            &&& cache.blocks[idx].buf_offset + n * block_size <= cache.total_size
        }),
{
    let n = sectors_per_block(cache.block_size, block_size);
    vstd::arithmetic::div_mod::lemma_fundamental_div_mod(
        cache.block_size as int,
        block_size as int,
    );
    assert(cache.block_size / block_size >= 1) by (nonlinear_arith)
        requires
            0 < block_size <= cache.block_size,
    ;
    assert(n * block_size == block_size * (cache.block_size as int / block_size as int))
        by (nonlinear_arith)
        requires
            n == cache.block_size as int / block_size as int,
    ;
    buffer::lemma_block_fits(idx, cache.block_size as int, cache.total_size as int);
    assert(cache.blocks[idx].buf_offset == idx * cache.block_size);
}

/// A block lies in its cache block.
pub proof fn lemma_sector_in_block(lba: usize, n: usize, block_size: usize)
    requires
        0 < n,
        0 < block_size,
    ensures
        ({
            let base = buffer::cache_sector(lba, n);
            &&& base <= lba < base + n
            &&& 0 <= (lba - base) * block_size
            &&& (lba - base) * block_size + block_size <= n * block_size
        }),
{
    let base = buffer::cache_sector(lba, n);
    vstd::arithmetic::div_mod::lemma_fundamental_div_mod(lba as int, n as int);
    assert((lba as int / n as int) * n == n * (lba as int / n as int)) by (nonlinear_arith);
    assert((lba - base) * block_size + block_size <= n * block_size) by (nonlinear_arith)
        requires
            lba - base + 1 <= n,
            0 < block_size,
    ;
    assert(0 <= (lba - base) * block_size) by (nonlinear_arith)
        requires
            lba >= base,
            0 < block_size,
    ;
}

/// An access keeps the cache's layout.
proof fn lemma_access_keeps_layout(
    cache: CacheState,
    key: (usize, usize),
    after: CacheState,
    res: CacheResult,
)
    requires
        cache.wf(),
        cache.accessed(key, after, res),
    ensures
        after.base_vaddr == cache.base_vaddr,
        after.total_size == cache.total_size,
        after.block_size == cache.block_size,
        after.blocks.len() == cache.blocks.len(),
{
}

/// Reads the block `lba` of a device through the cache, or the first `len` bytes of it.
pub fn read_block<D: Fn(usize, usize, usize) -> Result<Vec<u8>, Error>>(
    cache: &mut BufferCache,
    arena: &mut [u8],
    dev: &D,
    hw_id: usize,
    block_size: usize,
    lba: usize,
    len: usize,
) -> (r: Result<Vec<u8>, Error>)
    requires
        reads_blocks(*dev),
        (Store { cache: old(cache)@, arena: old(arena)@ }).can_serve(block_size),
    ensures
        (Store { cache: final(cache)@, arena: final(arena)@ }).can_serve(block_size),
        (Store { cache: final(cache)@, arena: final(arena)@ }).same_layout(
            Store { cache: old(cache)@, arena: old(arena)@ },
        ),
        exists|out: Result<Seq<u8>, Error>|
            {
                &&& #[trigger] block_read(
                    answers(*dev),
                    hw_id,
                    block_size,
                    lba,
                    Store { cache: old(cache)@, arena: old(arena)@ },
                    Store { cache: final(cache)@, arena: final(arena)@ },
                    out,
                )
                &&& match out {
                    Ok(block) => block.len() == block_size && seen(r) == Ok::<Seq<u8>, Error>(
                        block.take(
                            if len < block_size {
                                len as int
                            } else {
                                block_size as int
                            },
                        ),
                    ),
                    Err(e) => seen(r) == Err::<Seq<u8>, Error>(e),
                }
            },
{
    let ghost before = Store { cache: cache@, arena: arena@ };
    let cache_block_size: usize = cache.get_block_size();
    let per_block: usize = cache_block_size / block_size;
    let n: usize = if per_block < 1 {
        1
    } else {
        per_block
    };
    proof {
        lemma_block_room(cache@, block_size, 0);
        lemma_sector_in_block(lba, n, block_size);
        vstd::arithmetic::div_mod::lemma_fundamental_div_mod(lba as int, n as int);
        assert((lba as int / n as int) * n == n * (lba as int / n as int)) by (nonlinear_arith);
    }
    let base: usize = (lba / n) * n;
    let byte_offset: usize = (lba - base) * block_size;
    let res = cache.access_block(hw_id, lba, n);
    let ghost accessed = cache@;
    proof {
        lemma_block_room(old(cache)@, block_size, res.block_idx as int);
        lemma_access_keeps_layout(old(cache)@, (hw_id, base), accessed, res);
    }
    assert(arena.len() == old(arena)@.len());
    if !res.is_hit {
        let failed = fill_block(arena, dev, hw_id, base, block_size, res.buf_offset, n);
        proof {
            let after = Store { cache: cache@, arena: arena@ };
            assert(before.cache.accessed((hw_id, base), accessed, res));
            assert(filled(
                answers(*dev),
                hw_id,
                base,
                block_size,
                res.buf_offset as int,
                0,
                n as int,
                before.arena,
                after.arena,
                failed,
            ));
        }
        if let Some(e) = failed {
            assert(block_read(
                answers(*dev),
                hw_id,
                block_size,
                lba,
                before,
                Store { cache: cache@, arena: arena@ },
                Err::<Seq<u8>, Error>(e),
            ));
            return Err(e);
        }
        cache.mark_valid(res.block_idx);
        assert(cache@.addressable()) by {
            assert forall|i: int| 0 <= i < cache@.blocks.len() implies cache@.base_vaddr + (
            #[trigger] cache@.blocks[i]).buf_offset <= usize::MAX by {
                assert(accessed.base_vaddr + accessed.blocks[i].buf_offset <= usize::MAX);
            }
        }
    }
    let copy_len: usize = if len < block_size {
        len
    } else {
        block_size
    };
    let at: usize = res.buf_offset + byte_offset;
    assert(arena.len() == old(arena)@.len());
    let copied = vstd::slice::slice_to_vec(vstd::slice::slice_subrange(arena, at, at + copy_len));
    proof {
        let block = arena@.subrange(at as int, at + block_size);
        assert(copied@ =~= block.take(copy_len as int));
        let after = Store { cache: cache@, arena: arena@ };
        assert(before.cache.accessed((hw_id, base), accessed, res));
        if !res.is_hit {
            assert(filled(
                answers(*dev),
                hw_id,
                base,
                block_size,
                res.buf_offset as int,
                0,
                n as int,
                before.arena,
                after.arena,
                None,
            ));
        }
        assert(block_read(
            answers(*dev),
            hw_id,
            block_size,
            lba,
            before,
            after,
            Ok::<Seq<u8>, Error>(block),
        ));
    }
    Ok(copied)
}

/// The bytes `head`, and what follows.
pub open spec fn join(head: Seq<u8>, rest: Result<Seq<u8>, Error>) -> Result<Seq<u8>, Error> {
    match rest {
        Ok(tail) => Ok(head + tail),
        Err(e) => Err(e),
    }
}

/// A result without its first `n` bytes.
pub open spec fn after_head(r: Result<Seq<u8>, Error>, n: int) -> Result<Seq<u8>, Error> {
    match r {
        Ok(bytes) => Ok(bytes.skip(n)),
        Err(e) => Err(e),
    }
}

/// The block that byte `offset` after the start of block `first_lba` lies in.
pub open spec fn lba_of(first_lba: usize, offset: int, block_size: usize) -> usize {
    first_lba.wrapping_add((offset / block_size as int) as usize)
}

/// How much of a span of `len` bytes at `offset` lies in the block that it starts in.
pub open spec fn in_first_block(offset: int, len: int, block_size: usize) -> int {
    let room = block_size - offset % block_size as int;
    if len < room {
        len
    } else {
        room
    }
}

/// `len` bytes at `offset` after the start of block `first_lba` were read through the cache, block
/// by block: all of them, or up to the first block that failed.
pub open spec fn span_read(
    dev: DeviceAnswers,
    hw_id: usize,
    block_size: usize,
    first_lba: usize,
    offset: int,
    len: int,
    before: Store,
    after: Store,
    r: Result<Seq<u8>, Error>,
) -> bool
    decreases len,
{
    if len <= 0 || block_size == 0 {
        after == before && r == Ok::<Seq<u8>, Error>(Seq::empty())
    } else {
        let lba = lba_of(first_lba, offset, block_size);
        let start = offset % block_size as int;
        let n = in_first_block(offset, len, block_size);
        exists|between: Store, out: Result<Seq<u8>, Error>| #[trigger]
            block_read(dev, hw_id, block_size, lba, before, between, out) && match out {
                Err(e) => after == between && r == Err::<Seq<u8>, Error>(e),
                Ok(block) => (r matches Ok(bytes) ==> bytes.len() >= n && bytes.take(n)
                    == block.subrange(start, start + n)) && span_read(
                    dev,
                    hw_id,
                    block_size,
                    first_lba,
                    offset + n,
                    len - n,
                    between,
                    after,
                    after_head(r, n),
                ),
            }
    }
}

/// A block, and the rest of a span after it, make the span.
proof fn lemma_span_step(
    dev: DeviceAnswers,
    hw_id: usize,
    block_size: usize,
    first_lba: usize,
    offset: int,
    len: int,
    before: Store,
    between: Store,
    block: Seq<u8>,
    after: Store,
    rest: Result<Seq<u8>, Error>,
)
    requires
        0 < len,
        0 < block_size,
        block.len() == block_size,
        block_read(
            dev,
            hw_id,
            block_size,
            lba_of(first_lba, offset, block_size),
            before,
            between,
            Ok::<Seq<u8>, Error>(block),
        ),
        span_read(
            dev,
            hw_id,
            block_size,
            first_lba,
            offset + in_first_block(offset, len, block_size),
            len - in_first_block(offset, len, block_size),
            between,
            after,
            rest,
        ),
    ensures
        ({
            let start = offset % block_size as int;
            let n = in_first_block(offset, len, block_size);
            span_read(
                dev,
                hw_id,
                block_size,
                first_lba,
                offset,
                len,
                before,
                after,
                join(block.subrange(start, start + n), rest),
            )
        }),
{
    let start = offset % block_size as int;
    let n = in_first_block(offset, len, block_size);
    let head = block.subrange(start, start + n);
    if let Ok(tail) = rest {
        assert((head + tail).take(n) =~= head);
        assert((head + tail).skip(n) =~= tail);
    }
}

/// Reads `len` bytes at `offset` after the start of block `first_lba` through the cache.
pub fn read_span<D: Fn(usize, usize, usize) -> Result<Vec<u8>, Error>>(
    cache: &mut BufferCache,
    arena: &mut [u8],
    dev: &D,
    hw_id: usize,
    block_size: usize,
    first_lba: usize,
    offset: usize,
    len: usize,
) -> (r: Result<Vec<u8>, Error>)
    requires
        reads_blocks(*dev),
        (Store { cache: old(cache)@, arena: old(arena)@ }).can_serve(block_size),
        offset + len <= usize::MAX,
    ensures
        (Store { cache: final(cache)@, arena: final(arena)@ }).can_serve(block_size),
        (Store { cache: final(cache)@, arena: final(arena)@ }).same_layout(
            Store { cache: old(cache)@, arena: old(arena)@ },
        ),
        r matches Ok(bytes) ==> bytes@.len() == len,
        span_read(
            answers(*dev),
            hw_id,
            block_size,
            first_lba,
            offset as int,
            len as int,
            Store { cache: old(cache)@, arena: old(arena)@ },
            Store { cache: final(cache)@, arena: final(arena)@ },
            seen(r),
        ),
{
    let ghost before = Store { cache: cache@, arena: arena@ };
    let mut done: Vec<u8> = Vec::new();
    proof {
        assert forall|after: Store, rest: Result<Seq<u8>, Error>| #[trigger]
            span_read(
                answers(*dev),
                hw_id,
                block_size,
                first_lba,
                offset as int,
                len as int,
                before,
                after,
                rest,
            ) implies span_read(
            answers(*dev),
            hw_id,
            block_size,
            first_lba,
            offset as int,
            len as int,
            before,
            after,
            join(done@, rest),
        ) by {
            if let Ok(tail) = rest {
                assert(done@ + tail =~= tail);
            }
        }
    }
    while done.len() < len
        invariant
            reads_blocks(*dev),
            offset + len <= usize::MAX,
            before == (Store { cache: old(cache)@, arena: old(arena)@ }),
            done@.len() <= len,
            (Store { cache: cache@, arena: arena@ }).can_serve(block_size),
            (Store { cache: cache@, arena: arena@ }).same_layout(before),
            forall|after: Store, rest: Result<Seq<u8>, Error>| #[trigger]
                span_read(
                    answers(*dev),
                    hw_id,
                    block_size,
                    first_lba,
                    offset + done@.len(),
                    len - done@.len(),
                    Store { cache: cache@, arena: arena@ },
                    after,
                    rest,
                ) ==> span_read(
                    answers(*dev),
                    hw_id,
                    block_size,
                    first_lba,
                    offset as int,
                    len as int,
                    before,
                    after,
                    join(done@, rest),
                ),
        decreases len - done@.len(),
    {
        let ghost now = Store { cache: cache@, arena: arena@ };
        let ghost had = done@;
        let copied: usize = done.len();
        let cur_offset: usize = offset + copied;
        let lba: usize = first_lba.wrapping_add(cur_offset / block_size);
        let start: usize = cur_offset % block_size;
        let room: usize = block_size - start;
        let n: usize = if len - copied < room {
            len - copied
        } else {
            room
        };
        let out = read_block(cache, arena, dev, hw_id, block_size, lba, block_size);
        let ghost between = Store { cache: cache@, arena: arena@ };
        match out {
            Err(e) => {
                proof {
                    assert(block_read(
                        answers(*dev),
                        hw_id,
                        block_size,
                        lba_of(first_lba, offset + had.len(), block_size),
                        now,
                        between,
                        Err::<Seq<u8>, Error>(e),
                    ));
                    assert(span_read(
                        answers(*dev),
                        hw_id,
                        block_size,
                        first_lba,
                        offset + had.len(),
                        len - had.len(),
                        now,
                        between,
                        Err::<Seq<u8>, Error>(e),
                    ));
                }
                return Err(e);
            },
            Ok(block) => {
                let part = vstd::slice::slice_subrange(block.as_slice(), start, start + n);
                done.extend_from_slice(part);
                proof {
                    let piece = block@.subrange(start as int, start + n);
                    assert(done@ =~= had + piece);
                    assert forall|b: Seq<u8>| b.len() == block_size implies #[trigger] b.take(
                        block_size as int,
                    ) == b by {
                        assert(b.take(block_size as int) =~= b);
                    }
                    assert(block_read(
                        answers(*dev),
                        hw_id,
                        block_size,
                        lba_of(first_lba, offset + had.len(), block_size),
                        now,
                        between,
                        Ok::<Seq<u8>, Error>(block@),
                    ));
                    assert forall|after: Store, rest: Result<Seq<u8>, Error>| #[trigger]
                        span_read(
                            answers(*dev),
                            hw_id,
                            block_size,
                            first_lba,
                            offset + done@.len(),
                            len - done@.len(),
                            between,
                            after,
                            rest,
                        ) implies span_read(
                        answers(*dev),
                        hw_id,
                        block_size,
                        first_lba,
                        offset as int,
                        len as int,
                        before,
                        after,
                        join(done@, rest),
                    ) by {
                        let at = offset + had.len();
                        let left = len - had.len();
                        assert(n == in_first_block(at, left, block_size));
                        lemma_span_step(
                            answers(*dev),
                            hw_id,
                            block_size,
                            first_lba,
                            at,
                            left,
                            now,
                            between,
                            block@,
                            after,
                            rest,
                        );
                        assert(piece == block@.subrange(
                            at % block_size as int,
                            at % block_size as int + n,
                        ));
                        if let Ok(tail) = rest {
                            assert(had + (piece + tail) =~= done@ + tail);
                        }
                    }
                }
            },
        }
    }
    proof {
        let now = Store { cache: cache@, arena: arena@ };
        assert(span_read(
            answers(*dev),
            hw_id,
            block_size,
            first_lba,
            offset + done@.len(),
            len - done@.len(),
            now,
            now,
            Ok::<Seq<u8>, Error>(Seq::empty()),
        ));
        assert(done@ + Seq::<u8>::empty() =~= done@);
    }
    Ok(done)
}

/// A cache block holds as many whole blocks of the device as fit, and at least one.
pub proof fn law_cache_block_holds_whole_sectors(cache_block_size: usize, block_size: usize)
    requires
        block_size > 0,
    ensures
        ({
            let n = sectors_per_block(cache_block_size, block_size);
            &&& n >= 1
            &&& block_size <= cache_block_size ==> n * block_size <= cache_block_size < (n + 1)
                * block_size
            &&& block_size > cache_block_size ==> n == 1
        }),
{
    let q = cache_block_size as int / block_size as int;
    let r = cache_block_size as int % block_size as int;
    vstd::arithmetic::div_mod::lemma_fundamental_div_mod(
        cache_block_size as int,
        block_size as int,
    );
    assert(q * block_size == block_size * q && (q + 1) * block_size == block_size * q + block_size)
        by (nonlinear_arith);
    assert(q >= 1 <==> block_size <= cache_block_size) by (nonlinear_arith)
        requires
            cache_block_size == block_size * q + r,
            0 <= r < block_size,
    ;
}

/// A fill that fails does so with what the device answered for one of its blocks.
proof fn lemma_fill_fails_with_the_device(
    dev: DeviceAnswers,
    hw_id: usize,
    base: usize,
    block_size: usize,
    at: int,
    i: int,
    n: int,
    before: Seq<u8>,
    after: Seq<u8>,
    e: Error,
) -> (lba: usize)
    requires
        0 <= i <= n,
        base + n <= usize::MAX,
        filled(dev, hw_id, base, block_size, at, i, n, before, after, Some(e)),
    ensures
        base + i <= lba < base + n,
        dev(hw_id, lba, block_size, Err::<Vec<u8>, Error>(e)),
    decreases n - i,
{
    let out = choose|out: Result<Vec<u8>, Error>| #[trigger]
        dev(hw_id, base.wrapping_add(i as usize), block_size, out) && match out {
            Err(x) => after == before && Some(e) == Some(x),
            Ok(bytes) => filled(
                dev,
                hw_id,
                base,
                block_size,
                at,
                i + 1,
                n,
                put(before, at + i * block_size, bytes@),
                after,
                Some(e),
            ),
        };
    match out {
        Err(x) => (base + i) as usize,
        Ok(bytes) => lemma_fill_fails_with_the_device(
            dev,
            hw_id,
            base,
            block_size,
            at,
            i + 1,
            n,
            put(before, at + i * block_size, bytes@),
            after,
            e,
        ),
    }
}

/// A read that fails was a miss, and fails with what the device answered for a block that shares
/// a cache block with the one that was read.
pub proof fn law_reads_fail_with_the_device(
    dev: DeviceAnswers,
    hw_id: usize,
    block_size: usize,
    lba: usize,
    before: Store,
    after: Store,
    e: Error,
) -> (at: usize)
    requires
        block_size > 0,
        lba + before.cache.block_size < usize::MAX,
        block_read(dev, hw_id, block_size, lba, before, after, Err::<Seq<u8>, Error>(e)),
    ensures
        dev(hw_id, at, block_size, Err::<Vec<u8>, Error>(e)),
        block_size <= before.cache.block_size ==> (at - lba) * block_size
            < before.cache.block_size && (lba - at) * block_size < before.cache.block_size,
        block_size > before.cache.block_size ==> at == lba,
{
    let n = sectors_per_block(before.cache.block_size, block_size);
    let base = buffer::cache_sector(lba, n);
    law_cache_block_holds_whole_sectors(before.cache.block_size, block_size);
    buffer::law_cache_block_holds_its_sectors(lba, n);
    let (accessed, res) = choose|accessed: CacheState, res: CacheResult|
        {
            &&& #[trigger] before.cache.accessed((hw_id, base), accessed, res)
            &&& !res.is_hit
            &&& exists|failed: Option<Error>|
                {
                    &&& #[trigger] filled(
                        dev,
                        hw_id,
                        base,
                        block_size,
                        res.buf_offset as int,
                        0,
                        n as int,
                        before.arena,
                        after.arena,
                        failed,
                    )
                    &&& failed == Some(e)
                }
        };
    assert(base + n <= usize::MAX) by {
        if block_size <= before.cache.block_size {
            assert(n <= n * block_size) by (nonlinear_arith)
                requires
                    block_size >= 1,
            ;
        }
    }
    let at = lemma_fill_fails_with_the_device(
        dev,
        hw_id,
        base,
        block_size,
        res.buf_offset as int,
        0,
        n as int,
        before.arena,
        after.arena,
        e,
    );
    if block_size <= before.cache.block_size {
        assert((at - lba) * block_size < n * block_size && (lba - at) * block_size < n
            * block_size) by (nonlinear_arith)
            requires
                at - lba < n,
                lba - at < n,
                block_size > 0,
        ;
    }
    at
}

/// A read through the cache is served from the cache block that holds the device block: the one of
/// the `n` device blocks from `base` on, which fill a cache block and of which the first is a
/// multiple of `n`. What it gives are the bytes of that block's place in the buffer; a block that
/// was filled is marked as valid, and one that could not be filled stays invalid.
pub proof fn law_reads_are_served_from_their_block(
    dev: DeviceAnswers,
    hw_id: usize,
    block_size: usize,
    lba: usize,
    before: Store,
    after: Store,
    r: Result<Seq<u8>, Error>,
    n: usize,
    base: usize,
)
    requires
        before.can_serve(block_size),
        n * block_size <= before.cache.block_size < (n + 1) * block_size,
        base as int % n as int == 0,
        base <= lba < base + n,
        block_read(dev, hw_id, block_size, lba, before, after, r),
    ensures
        ({
            let known = before.cache.lookup.contains_key((hw_id, base));
            let idx = after.cache.lookup[(hw_id, base)] as int;
            let at = idx * before.cache.block_size + (lba - base) * block_size;
            &&& after.cache.lookup.contains_key((hw_id, base))
            &&& known ==> r is Ok && after.arena == before.arena && idx == before.cache.lookup[(
                hw_id,
                base,
            )]
            &&& r is Ok ==> r->Ok_0 == after.arena.subrange(at, at + block_size)
            &&& r is Ok && known ==> after.cache.blocks[idx].state
                == before.cache.blocks[idx].state
            &&& r is Ok && !known ==> after.cache.blocks[idx].state == buffer::BlockState::Valid
            &&& r is Err ==> after.cache.blocks[idx].state == buffer::BlockState::Invalid
        }),
{
    let per = sectors_per_block(before.cache.block_size, block_size);
    law_cache_block_holds_whole_sectors(before.cache.block_size, block_size);
    assert(n == per) by (nonlinear_arith)
        requires
            block_size > 0,
            n * block_size <= before.cache.block_size < (n + 1) * block_size,
            per * block_size <= before.cache.block_size < (per + 1) * block_size,
    ;
    let found = buffer::cache_sector(lba, n);
    buffer::law_cache_block_holds_its_sectors(lba, n);
    lemma_one_multiple(base as int, found as int, lba as int, n as int);
    let (accessed, res) = choose|accessed: CacheState, res: CacheResult|
        {
            let at = res.buf_offset + (lba - base) * block_size;
            let block = Ok::<Seq<u8>, Error>(after.arena.subrange(at, at + block_size));
            &&& #[trigger] before.cache.accessed((hw_id, base), accessed, res)
            &&& if res.is_hit {
                after.arena == before.arena && after.cache == accessed && r == block
            } else {
                exists|failed: Option<Error>|
                    {
                        &&& #[trigger] filled(
                            dev,
                            hw_id,
                            base,
                            block_size,
                            res.buf_offset as int,
                            0,
                            n as int,
                            before.arena,
                            after.arena,
                            failed,
                        )
                        &&& match failed {
                            None => after.cache == accessed.after_mark_valid(res.block_idx) && r
                                == block,
                            Some(e) => after.cache == accessed && r == Err::<Seq<u8>, Error>(e),
                        }
                    }
            }
        };
    buffer::law_access_gives_one_block(before.cache, (hw_id, base), accessed, res);
}

/// A number lies between two neighbouring multiples in one place only.
proof fn lemma_one_multiple(a: int, b: int, x: int, n: int)
    requires
        n > 0,
        a % n == 0,
        b % n == 0,
        a <= x < a + n,
        b <= x < b + n,
    ensures
        a == b,
{
    vstd::arithmetic::div_mod::lemma_fundamental_div_mod(a, n);
    vstd::arithmetic::div_mod::lemma_fundamental_div_mod(b, n);
    let (p, q) = (a / n, b / n);
    assert(p == q) by (nonlinear_arith)
        requires
            n > 0,
            n * p < n * q + n,
            n * q < n * p + n,
    ;
}

/// A read of many blocks that fails does so with the failure of a block that it covers.
pub proof fn law_spans_fail_with_a_block(
    dev: DeviceAnswers,
    hw_id: usize,
    block_size: usize,
    first_lba: usize,
    offset: int,
    len: int,
    before: Store,
    after: Store,
    e: Error,
) -> (w: (usize, Store))
    requires
        0 <= offset,
        block_size > 0,
        first_lba + offset + len <= usize::MAX,
        span_read(
            dev,
            hw_id,
            block_size,
            first_lba,
            offset,
            len,
            before,
            after,
            Err::<Seq<u8>, Error>(e),
        ),
    ensures
        first_lba * block_size + offset - block_size < w.0 * block_size < first_lba * block_size
            + offset + len,
        block_read(dev, hw_id, block_size, w.0, w.1, after, Err::<Seq<u8>, Error>(e)),
    decreases len,
{
    let lba = lba_of(first_lba, offset, block_size);
    let n = in_first_block(offset, len, block_size);
    let q = offset / block_size as int;
    vstd::arithmetic::div_mod::lemma_fundamental_div_mod(offset, block_size as int);
    assert(0 <= q <= offset) by (nonlinear_arith)
        requires
            offset == block_size * q + offset % (block_size as int),
            0 <= offset % (block_size as int) < block_size,
            offset >= 0,
    ;
    let (between, out) = choose|between: Store, out: Result<Seq<u8>, Error>| #[trigger]
        block_read(dev, hw_id, block_size, lba, before, between, out) && match out {
            Err(x) => after == between && e == x,
            Ok(block) => span_read(
                dev,
                hw_id,
                block_size,
                first_lba,
                offset + n,
                len - n,
                between,
                after,
                Err::<Seq<u8>, Error>(e),
            ),
        };
    if out is Ok {
        law_spans_fail_with_a_block(
            dev,
            hw_id,
            block_size,
            first_lba,
            offset + n,
            len - n,
            between,
            after,
            e,
        )
    } else {
        assert(lba * block_size == first_lba * block_size + block_size * q) by (nonlinear_arith)
            requires
                lba == first_lba + q,
        ;
        (lba, before)
    }
}

} // verus!
