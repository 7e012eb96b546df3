//! What the cache promises: a read gives what the device gave.
use super::buffer;
use super::buffer::{CacheResult, CacheState};
use super::reader;
use super::reader::{DeviceAnswers, Store};
use crate::error::Error;
use vstd::prelude::*;

verus! {

/// Whether `bytes` is something that the device can have given for block `lba`.
pub open spec fn served(
    dev: DeviceAnswers,
    hw_id: usize,
    lba: usize,
    block_size: usize,
    bytes: Seq<u8>,
) -> bool {
    exists|out: Result<Vec<u8>, Error>| #[trigger]
        dev(hw_id, lba, block_size, out) && reader::seen(out) == Ok::<
            Seq<u8>,
            Error,
        >(bytes)
}

/// The bytes of block `i` of the cache block at `at`.
pub open spec fn sector_bytes(arena: Seq<u8>, at: int, i: int, block_size: usize) -> Seq<u8> {
    arena.subrange(at + i * block_size, at + i * block_size + block_size)
}

/// The device block `i` blocks into what is cached under `base` is as the device gave it.
pub open spec fn sector_coherent(
    dev: DeviceAnswers,
    hw_id: usize,
    block_size: usize,
    store: Store,
    base: usize,
    i: int,
) -> bool {
    let at = store.cache.blocks[store.cache.lookup[(hw_id, base)] as int].buf_offset;
    served(
        dev,
        hw_id,
        base.wrapping_add(i as usize),
        block_size,
        sector_bytes(store.arena, at as int, i, block_size),
    )
}

/// The block under which block `lba` of a device is cached: the first of those that share its
/// cache block, its window.
pub open spec fn window_of(store: Store, block_size: usize, lba: usize) -> usize {
    buffer::cache_sector(lba, reader::sectors_per_block(store.cache.block_size, block_size))
}

/// What is cached of the device is as the device gave it, but perhaps for the windows in `spoiled`.
#[verifier::opaque]
pub open spec fn coherent_but(
    dev: DeviceAnswers,
    hw_id: usize,
    block_size: usize,
    store: Store,
    spoiled: Set<usize>,
) -> bool {
    forall|base: usize, i: int|
        store.cache.lookup.contains_key((hw_id, base)) && !spoiled.contains(base) && 0 <= i
            < reader::sectors_per_block(
            store.cache.block_size,
            block_size,
        ) ==> #[trigger] sector_coherent(dev, hw_id, block_size, store, base, i)
}

/// All that is cached of the device is as the device gave it.
pub open spec fn coherent(
    dev: DeviceAnswers,
    hw_id: usize,
    block_size: usize,
    store: Store,
) -> bool {
    coherent_but(dev, hw_id, block_size, store, Set::empty())
}

/// A fill writes what the device gave, and only into its own cache block.
proof fn lemma_filled(
    dev: DeviceAnswers,
    hw_id: usize,
    base: usize,
    block_size: usize,
    at: int,
    i: int,
    n: int,
    before: Seq<u8>,
    after: Seq<u8>,
    failed: Option<Error>,
)
    requires
        reader::gives_blocks(dev),
        0 < block_size,
        0 <= at,
        0 <= i <= n,
        at + n * block_size <= before.len(),
        reader::filled(dev, hw_id, base, block_size, at, i, n, before, after, failed),
    ensures
        after.len() == before.len(),
        forall|k: int|
            0 <= k < before.len() && !(at + i * block_size <= k < at + n * block_size)
                ==> after[k] == before[k],
        failed is None ==> forall|j: int|
            i <= j < n ==> served(
                dev,
                hw_id,
                base.wrapping_add(j as usize),
                block_size,
                #[trigger] sector_bytes(after, at, j, block_size),
            ),
    decreases n - i,
{
    if i < n {
        assert(i * block_size + block_size <= n * block_size) by (nonlinear_arith)
            requires
                i + 1 <= n,
        ;
        assert((i + 1) * block_size == i * block_size + block_size) by (nonlinear_arith);
        assert(0 <= i * block_size) by (nonlinear_arith)
            requires
                0 <= i,
                0 < block_size,
        ;
        let out = choose|out: Result<Vec<u8>, Error>| #[trigger]
            dev(hw_id, base.wrapping_add(i as usize), block_size, out)
                && match out {
                Err(e) => after == before && failed == Some(e),
                Ok(bytes) => reader::filled(
                    dev,
                    hw_id,
                    base,
                    block_size,
                    at,
                    i + 1,
                    n,
                    reader::put(before, at + i * block_size, bytes@),
                    after,
                    failed,
                ),
            };
        if let Ok(bytes) = out {
            let next = reader::put(before, at + i * block_size, bytes@);
            lemma_filled(dev, hw_id, base, block_size, at, i + 1, n, next, after, failed);
            assert forall|k: int|
                0 <= k < before.len() && !(at + i * block_size <= k < at + n
                    * block_size) implies after[k] == before[k] by {
                assert(next[k] == before[k]);
            }
            if failed is None {
                assert(sector_bytes(after, at, i, block_size) =~= bytes@);
                assert forall|j: int| i <= j < n implies served(
                    dev,
                    hw_id,
                    base.wrapping_add(j as usize),
                    block_size,
                    #[trigger] sector_bytes(after, at, j, block_size),
                ) by {
                    if j == i {
                        assert(dev(hw_id, base.wrapping_add(i as usize), block_size, out));
                    }
                }
            }
        }
    }
}

/// What lies in one cache block is not touched by writes to another.
proof fn lemma_blocks_apart(
    cache: CacheState,
    block_size: usize,
    a: int,
    b: int,
    i: int,
)
    requires
        cache.wf(),
        0 < block_size <= cache.block_size,
        0 <= a < cache.blocks.len(),
        0 <= b < cache.blocks.len(),
        a != b,
        0 <= i < reader::sectors_per_block(cache.block_size, block_size),
    ensures
        ({
            let at_a = cache.blocks[a].buf_offset;
            let at_b = cache.blocks[b].buf_offset;
            let from = at_a + i * block_size;
            &&& at_a <= from
            &&& from + block_size <= at_a + cache.block_size
            &&& from + block_size <= cache.total_size
            &&& from + block_size <= at_b || at_b + cache.block_size <= from
        }),
{
    let n = reader::sectors_per_block(cache.block_size, block_size);
    reader::lemma_block_room(cache, block_size, a);
    assert(cache.blocks[a].buf_offset == a * cache.block_size);
    assert(cache.blocks[b].buf_offset == b * cache.block_size);
    assert(0 <= i * block_size && i * block_size + block_size <= n * block_size)
        by (nonlinear_arith)
        requires
            0 <= i,
            i + 1 <= n,
            0 < block_size,
    ;
    if a < b {
        assert(a * cache.block_size + cache.block_size <= b * cache.block_size)
            by (nonlinear_arith)
            requires
                a + 1 <= b,
        ;
    } else {
        assert(b * cache.block_size + cache.block_size <= a * cache.block_size)
            by (nonlinear_arith)
            requires
                b + 1 <= a,
        ;
    }
}

/// A cache that holds nothing is coherent with every device.
pub proof fn law_empty_cache_is_coherent(
    dev: DeviceAnswers,
    hw_id: usize,
    block_size: usize,
    store: Store,
)
    requires
        store.cache.lookup == Map::<(usize, usize), usize>::empty(),
    ensures
        coherent(dev, hw_id, block_size, store),
{
    reveal(coherent_but);
}

/// The steps of a read through the cache: the access, and on a miss the fill.
proof fn open_block_read(
    dev: DeviceAnswers,
    hw_id: usize,
    block_size: usize,
    lba: usize,
    before: Store,
    after: Store,
    r: Result<Seq<u8>, Error>,
) -> (w: (CacheState, CacheResult, Option<Error>))
    requires
        reader::gives_blocks(dev),
        before.can_serve(block_size),
        reader::block_read(dev, hw_id, block_size, lba, before, after, r),
    ensures
        ({
            let n = reader::sectors_per_block(before.cache.block_size, block_size);
            let base = buffer::cache_sector(lba, n);
            let at = w.1.buf_offset + (lba - base) * block_size;
            let block = Ok::<Seq<u8>, Error>(after.arena.subrange(at, at + block_size));
            let idx = w.1.block_idx;
            &&& before.cache.accessed((hw_id, base), w.0, w.1)
            &&& idx < before.cache.blocks.len()
            &&& w.1.is_hit ==> after.arena == before.arena && after.cache == w.0 && r == block
            &&& !w.1.is_hit ==> reader::filled(
                dev,
                hw_id,
                base,
                block_size,
                w.1.buf_offset as int,
                0,
                n as int,
                before.arena,
                after.arena,
                w.2,
            )
            &&& !w.1.is_hit && w.2 is None ==> after.cache == w.0.after_mark_valid(idx) && r
                == block
            &&& !w.1.is_hit && w.2 is Some ==> after.cache == w.0 && r == Err::<Seq<u8>, Error>(
                w.2->0,
            )
            &&& after.arena.len() == before.arena.len()
        }),
{
    let n = reader::sectors_per_block(before.cache.block_size, block_size);
    let base = buffer::cache_sector(lba, n);
    let (accessed, res) = choose|accessed: CacheState, res: CacheResult|
        {
            let at = res.buf_offset + (lba - base) * block_size;
            let block = Ok::<Seq<u8>, Error>(after.arena.subrange(at, at + block_size));
            &&& #[trigger] before.cache.accessed((hw_id, base), accessed, res)
            &&& if res.is_hit {
                after.arena == before.arena && after.cache == accessed && r == block
            } else {
                exists|failed: Option<Error>|
                    {
                        &&& #[trigger] reader::filled(
                            dev,
                            hw_id,
                            base,
                            block_size,
                            res.buf_offset as int,
                            0,
                            n as int,
                            before.arena,
                            after.arena,
                            failed,
                        )
                        &&& match failed {
                            None => after.cache == accessed.after_mark_valid(res.block_idx) && r
                                == block,
                            Some(e) => after.cache == accessed && r == Err::<Seq<u8>, Error>(e),
                        }
                    }
            }
        };
    if res.is_hit {
        assert(before.cache.lookup[(hw_id, base)] < before.cache.blocks.len());
        (accessed, res, None)
    } else {
        let at = res.buf_offset + (lba - base) * block_size;
        let block = Ok::<Seq<u8>, Error>(after.arena.subrange(at, at + block_size));
        let failed = choose|failed: Option<Error>|
            {
                &&& #[trigger] reader::filled(
                    dev,
                    hw_id,
                    base,
                    block_size,
                    res.buf_offset as int,
                    0,
                    n as int,
                    before.arena,
                    after.arena,
                    failed,
                )
                &&& match failed {
                    None => after.cache == accessed.after_mark_valid(res.block_idx) && r == block,
                    Some(e) => after.cache == accessed && r == Err::<Seq<u8>, Error>(e),
                }
            };
        if before.cache.free.len() > 0 {
            assert(before.cache.free[before.cache.free.len() - 1] == res.block_idx);
        }
        reader::lemma_block_room(before.cache, block_size, res.block_idx as int);
        lemma_filled(
            dev,
            hw_id,
            base,
            block_size,
            res.buf_offset as int,
            0,
            n as int,
            before.arena,
            after.arena,
            failed,
        );
        (accessed, res, failed)
    }
}

/// A read leaves alone what is cached under a key that it did not install: if the key is still
/// there afterwards, it was there before, and its bytes are the same.
proof fn lemma_untouched(
    dev: DeviceAnswers,
    hw_id: usize,
    block_size: usize,
    lba: usize,
    before: Store,
    after: Store,
    r: Result<Seq<u8>, Error>,
    key: (usize, usize),
    size: usize,
    i: int,
)
    requires
        reader::gives_blocks(dev),
        before.can_serve(block_size),
        reader::block_read(dev, hw_id, block_size, lba, before, after, r),
        0 < size <= before.cache.block_size,
        0 <= i < reader::sectors_per_block(before.cache.block_size, size),
        after.cache.lookup.contains_key(key),
        before.cache.lookup.contains_key(key) || key != (
            hw_id,
            buffer::cache_sector(
                lba,
                reader::sectors_per_block(before.cache.block_size, block_size),
            ),
        ),
    ensures
        ({
            let at = before.cache.blocks[before.cache.lookup[key] as int].buf_offset;
            &&& before.cache.lookup.contains_key(key)
            &&& after.cache.blocks[after.cache.lookup[key] as int].buf_offset == at
            &&& sector_bytes(after.arena, at as int, i, size) == sector_bytes(
                before.arena,
                at as int,
                i,
                size,
            )
        }),
{
    let n = reader::sectors_per_block(before.cache.block_size, block_size);
    let base = buffer::cache_sector(lba, n);
    let (accessed, res, failed) = open_block_read(
        dev,
        hw_id,
        block_size,
        lba,
        before,
        after,
        r,
    );
    let idx = res.block_idx;
    if !res.is_hit {
        assert(key != (hw_id, base));
        assert(before.cache.lookup.contains_key(key));
        let other = before.cache.lookup[key];
        assert(buffer::key_of(before.cache.blocks[other as int]) == key);
        if other == idx {
            assert(before.cache.in_use(idx));
            if before.cache.free.len() > 0 {
                assert(before.cache.free[before.cache.free.len() - 1] == idx);
                assert(before.cache.free.contains(idx));
            }
        }
        reader::lemma_block_room(before.cache, block_size, idx as int);
        lemma_filled(
            dev,
            hw_id,
            base,
            block_size,
            res.buf_offset as int,
            0,
            n as int,
            before.arena,
            after.arena,
            failed,
        );
        lemma_blocks_apart(before.cache, size, other as int, idx as int, i);
        let at = before.cache.blocks[other as int].buf_offset;
        assert(sector_bytes(after.arena, at as int, i, size) =~= sector_bytes(
            before.arena,
            at as int,
            i,
            size,
        ));
    }
}

/// A read keeps the invariant of the store and its layout.
pub proof fn law_read_keeps_store(
    dev: DeviceAnswers,
    hw_id: usize,
    block_size: usize,
    lba: usize,
    before: Store,
    after: Store,
    r: Result<Seq<u8>, Error>,
)
    requires
        reader::gives_blocks(dev),
        before.can_serve(block_size),
        reader::block_read(dev, hw_id, block_size, lba, before, after, r),
    ensures
        after.can_serve(block_size),
        after.same_layout(before),
        r matches Ok(block) ==> block.len() == block_size,
{
    let n = reader::sectors_per_block(before.cache.block_size, block_size);
    let base = buffer::cache_sector(lba, n);
    let (accessed, res, failed) = open_block_read(
        dev,
        hw_id,
        block_size,
        lba,
        before,
        after,
        r,
    );
    let idx = res.block_idx;
    reader::lemma_block_room(before.cache, block_size, idx as int);
    reader::lemma_sector_in_block(lba, n, block_size);
    if res.is_hit {
        buffer::lemma_hit_keeps_wf(before.cache, (hw_id, base));
    } else {
        buffer::lemma_miss_keeps_wf(before.cache, (hw_id, base), idx);
        if failed is None {
            buffer::lemma_state_keeps_wf(
                accessed,
                idx,
                buffer::BlockState::Valid,
                after.cache.stats,
            );
            assert(after.cache.blocks == accessed.with_state(
                idx,
                buffer::BlockState::Valid,
            ).blocks);
            assert forall|i: int| 0 <= i < after.cache.blocks.len() implies after.cache.base_vaddr
                + (#[trigger] after.cache.blocks[i]).buf_offset <= usize::MAX by {
                assert(accessed.base_vaddr + accessed.blocks[i].buf_offset <= usize::MAX);
            }
        }
    }
}

/// A read spoils no window but its own, and that only if it fails. The block that it gives is as
/// the device gave it, now or when the block was cached, unless its window was spoiled before; and
/// a window that is read anew is spoiled no longer.
pub proof fn law_read_spoils_one_window(
    dev: DeviceAnswers,
    hw_id: usize,
    block_size: usize,
    lba: usize,
    before: Store,
    after: Store,
    r: Result<Seq<u8>, Error>,
    spoiled: Set<usize>,
)
    requires
        reader::gives_blocks(dev),
        before.can_serve(block_size),
        coherent_but(dev, hw_id, block_size, before, spoiled),
        reader::block_read(dev, hw_id, block_size, lba, before, after, r),
    ensures
        ({
            let window = window_of(before, block_size, lba);
            let cached = before.cache.lookup.contains_key((hw_id, window));
            &&& coherent_but(dev, hw_id, block_size, after, spoiled.insert(window))
            &&& r is Ok ==> coherent_but(dev, hw_id, block_size, after, spoiled)
            &&& r is Ok && !cached ==> coherent_but(
                dev,
                hw_id,
                block_size,
                after,
                spoiled.remove(window),
            )
            &&& r matches Ok(block) ==> (!cached || !spoiled.contains(window) ==> served(
                dev,
                hw_id,
                lba,
                block_size,
                block,
            ))
        }),
{
    reveal(coherent_but);
    let n = reader::sectors_per_block(before.cache.block_size, block_size);
    let base = window_of(before, block_size, lba);
    let (accessed, res, failed) = open_block_read(
        dev,
        hw_id,
        block_size,
        lba,
        before,
        after,
        r,
    );
    let idx = res.block_idx;
    reader::lemma_block_room(before.cache, block_size, idx as int);
    reader::lemma_sector_in_block(lba, n, block_size);
    let at = res.buf_offset as int;
    if !res.is_hit {
        lemma_filled(
            dev,
            hw_id,
            base,
            block_size,
            at,
            0,
            n as int,
            before.arena,
            after.arena,
            failed,
        );
    }
    let kept = if r is Ok && !res.is_hit {
        spoiled.remove(base)
    } else if r is Ok {
        spoiled
    } else {
        spoiled.insert(base)
    };
    assert forall|b: usize, i: int|
        after.cache.lookup.contains_key((hw_id, b)) && !kept.contains(b) && 0 <= i
            < n implies #[trigger] sector_coherent(
        dev,
        hw_id,
        block_size,
        after,
        b,
        i,
    ) by {
        if res.is_hit || b != base {
            lemma_untouched(
                dev,
                hw_id,
                block_size,
                lba,
                before,
                after,
                r,
                (hw_id, b),
                block_size,
                i,
            );
            assert(sector_coherent(dev, hw_id, block_size, before, b, i));
        } else {
            assert(after.cache.blocks[idx as int].buf_offset == at);
            assert(served(
                dev,
                hw_id,
                base.wrapping_add(i as usize),
                block_size,
                sector_bytes(after.arena, at, i, block_size),
            ));
        }
    }
    if let Ok(block) = r {
        assert(block == sector_bytes(after.arena, at, lba - base, block_size));
        if !res.is_hit || !spoiled.contains(base) {
            assert(sector_coherent(dev, hw_id, block_size, after, base, lba - base));
            assert(base.wrapping_add((lba - base) as usize) == lba);
        }
    }
}

/// A read of a block gives what the device gave for that block, now or when the block was cached,
/// and all that is cached stays so.
pub proof fn law_read_gives_what_the_device_gave(
    dev: DeviceAnswers,
    hw_id: usize,
    block_size: usize,
    lba: usize,
    before: Store,
    after: Store,
    block: Seq<u8>,
)
    requires
        reader::gives_blocks(dev),
        before.can_serve(block_size),
        coherent(dev, hw_id, block_size, before),
        reader::block_read(
            dev,
            hw_id,
            block_size,
            lba,
            before,
            after,
            Ok::<Seq<u8>, Error>(block),
        ),
    ensures
        coherent(dev, hw_id, block_size, after),
        served(dev, hw_id, lba, block_size, block),
{
    law_read_spoils_one_window(
        dev,
        hw_id,
        block_size,
        lba,
        before,
        after,
        Ok::<Seq<u8>, Error>(block),
        Set::empty(),
    );
}

/// A read of one device, whatever comes of it, leaves what is cached of another as it was given.
pub proof fn law_read_leaves_other_devices(
    dev: DeviceAnswers,
    hw_id: usize,
    block_size: usize,
    lba: usize,
    before: Store,
    after: Store,
    r: Result<Seq<u8>, Error>,
    other_id: usize,
    other_block_size: usize,
    spoiled: Set<usize>,
)
    requires
        reader::gives_blocks(dev),
        before.can_serve(block_size),
        before.can_serve(other_block_size),
        other_id != hw_id,
        coherent_but(dev, other_id, other_block_size, before, spoiled),
        reader::block_read(dev, hw_id, block_size, lba, before, after, r),
    ensures
        coherent_but(dev, other_id, other_block_size, after, spoiled),
{
    reveal(coherent_but);
    law_read_keeps_store(dev, hw_id, block_size, lba, before, after, r);
    assert forall|b: usize, i: int|
        after.cache.lookup.contains_key((other_id, b)) && !spoiled.contains(b) && 0 <= i
            < reader::sectors_per_block(
            after.cache.block_size,
            other_block_size,
        ) implies #[trigger] sector_coherent(dev, other_id, other_block_size, after, b, i) by {
        lemma_untouched(
            dev,
            hw_id,
            block_size,
            lba,
            before,
            after,
            r,
            (other_id, b),
            other_block_size,
            i,
        );
        assert(sector_coherent(dev, other_id, other_block_size, before, b, i));
    }
}

/// A cache block that is given to something else than a read, and whose bytes change outside the
/// server's control, spoils the window that it is given to, and no other of any device.
pub proof fn law_access_spoils_one_window(
    dev: DeviceAnswers,
    hw_id: usize,
    block_size: usize,
    key: (usize, usize),
    before: Store,
    after: Store,
    res: CacheResult,
    spoiled: Set<usize>,
)
    requires
        before.can_serve(block_size),
        coherent_but(dev, hw_id, block_size, before, spoiled),
        before.cache.accessed(key, after.cache, res),
        after.arena.len() == before.arena.len(),
        forall|k: int|
            0 <= k < before.arena.len() && !(res.buf_offset <= k < res.buf_offset
                + before.cache.block_size) ==> after.arena[k] == before.arena[k],
    ensures
        coherent_but(
            dev,
            hw_id,
            block_size,
            after,
            if key.0 == hw_id {
                spoiled.insert(key.1)
            } else {
                spoiled
            },
        ),
{
    reveal(coherent_but);
    let idx = res.block_idx;
    let kept = if key.0 == hw_id {
        spoiled.insert(key.1)
    } else {
        spoiled
    };
    if !res.is_hit {
        buffer::lemma_miss_keeps_wf(before.cache, key, idx);
    }
    assert forall|b: usize, i: int|
        after.cache.lookup.contains_key((hw_id, b)) && !kept.contains(b) && 0 <= i
            < reader::sectors_per_block(
            after.cache.block_size,
            block_size,
        ) implies #[trigger] sector_coherent(dev, hw_id, block_size, after, b, i) by {
        assert(key != (hw_id, b));
        assert(before.cache.lookup.contains_key((hw_id, b)));
        let other = before.cache.lookup[(hw_id, b)];
        assert(buffer::key_of(before.cache.blocks[other as int]) == (hw_id, b));
        if other == idx {
            assert(before.cache.in_use(idx));
            if before.cache.free.len() > 0 {
                assert(before.cache.free[before.cache.free.len() - 1] == before.cache.free.last());
                assert(before.cache.free.contains(before.cache.free.last()));
            }
        }
        lemma_blocks_apart(before.cache, block_size, other as int, idx as int, i);
        let at = before.cache.blocks[other as int].buf_offset;
        assert(sector_bytes(after.arena, at as int, i, block_size) =~= sector_bytes(
            before.arena,
            at as int,
            i,
            block_size,
        ));
        assert(sector_coherent(dev, hw_id, block_size, before, b, i));
    }
}

/// The device always gives the blocks of `image`.
#[verifier::opaque]
pub open spec fn is_image(
    dev: DeviceAnswers,
    hw_id: usize,
    block_size: usize,
    image: spec_fn(usize) -> Seq<u8>,
) -> bool {
    forall|lba: usize, out: Result<Vec<u8>, Error>| #[trigger]
        dev(hw_id, lba, block_size, out) ==> reader::seen(out) == Ok::<
            Seq<u8>,
            Error,
        >(image(lba))
}

/// The `len` bytes at `offset` after the start of block `first_lba` of an image.
pub open spec fn image_span(
    image: spec_fn(usize) -> Seq<u8>,
    block_size: usize,
    first_lba: usize,
    offset: int,
    len: int,
) -> Seq<u8> {
    Seq::new(
        len as nat,
        |k: int|
            image(reader::lba_of(first_lba, offset + k, block_size))[(offset + k)
                % block_size as int],
    )
}

/// The device always gives the blocks of `image`, and the store, which can serve it, holds nothing
/// of it that it did not give.
#[verifier::opaque]
pub open spec fn mirrors(
    dev: DeviceAnswers,
    image: spec_fn(usize) -> Seq<u8>,
    hw_id: usize,
    block_size: usize,
    store: Store,
) -> bool {
    &&& reader::gives_blocks(dev)
    &&& is_image(dev, hw_id, block_size, image)
    &&& store.can_serve(block_size)
    &&& coherent(dev, hw_id, block_size, store)
}

/// A cache that was just made, in a buffer with room for a block, mirrors every device.
pub proof fn law_fresh_cache_mirrors(
    dev: DeviceAnswers,
    image: spec_fn(usize) -> Seq<u8>,
    hw_id: usize,
    block_size: usize,
    base_vaddr: usize,
    cache_block_size: usize,
    arena: Seq<u8>,
)
    requires
        reader::gives_blocks(dev),
        is_image(dev, hw_id, block_size, image),
        0 < block_size <= cache_block_size <= arena.len(),
        base_vaddr + arena.len() <= usize::MAX,
    ensures
        mirrors(
            dev,
            image,
            hw_id,
            block_size,
            Store {
                cache: buffer::fresh_cache(base_vaddr, arena.len() as usize, cache_block_size),
                arena,
            },
        ),
{
    reveal(mirrors);
    let total_size = arena.len() as usize;
    let store = Store {
        cache: buffer::fresh_cache(base_vaddr, total_size, cache_block_size),
        arena,
    };
    buffer::lemma_fresh_wf(base_vaddr, total_size, cache_block_size);
    assert(total_size as int / cache_block_size as int >= 1) by (nonlinear_arith)
        requires
            0 < cache_block_size <= total_size,
    ;
    law_empty_cache_is_coherent(dev, hw_id, block_size, store);
}

/// A fill from a device that never fails does not fail.
proof fn lemma_image_fills(
    dev: DeviceAnswers,
    image: spec_fn(usize) -> Seq<u8>,
    hw_id: usize,
    base: usize,
    block_size: usize,
    at: int,
    i: int,
    n: int,
    before: Seq<u8>,
    after: Seq<u8>,
    failed: Option<Error>,
)
    requires
        is_image(dev, hw_id, block_size, image),
        reader::filled(dev, hw_id, base, block_size, at, i, n, before, after, failed),
    ensures
        failed is None,
    decreases n - i,
{
    reveal(is_image);
    if i < n {
        let out = choose|out: Result<Vec<u8>, Error>| #[trigger]
            dev(hw_id, base.wrapping_add(i as usize), block_size, out)
                && match out {
                Err(e) => after == before && failed == Some(e),
                Ok(bytes) => reader::filled(
                    dev,
                    hw_id,
                    base,
                    block_size,
                    at,
                    i + 1,
                    n,
                    reader::put(before, at + i * block_size, bytes@),
                    after,
                    failed,
                ),
            };
        assert(reader::seen(out) is Ok);
        if let Ok(bytes) = out {
            lemma_image_fills(
                dev,
                image,
                hw_id,
                base,
                block_size,
                at,
                i + 1,
                n,
                reader::put(before, at + i * block_size, bytes@),
                after,
                failed,
            );
        }
    }
}

/// Reading a device that never fails and does not change gives its blocks.
pub proof fn law_block_reads_the_image(
    dev: DeviceAnswers,
    image: spec_fn(usize) -> Seq<u8>,
    hw_id: usize,
    block_size: usize,
    lba: usize,
    before: Store,
    after: Store,
    r: Result<Seq<u8>, Error>,
)
    requires
        reader::gives_blocks(dev),
        is_image(dev, hw_id, block_size, image),
        before.can_serve(block_size),
        coherent(dev, hw_id, block_size, before),
        reader::block_read(dev, hw_id, block_size, lba, before, after, r),
    ensures
        r == Ok::<Seq<u8>, Error>(image(lba)),
        image(lba).len() == block_size,
        coherent(dev, hw_id, block_size, after),
        after.can_serve(block_size),
        after.same_layout(before),
{
    let n = reader::sectors_per_block(before.cache.block_size, block_size);
    let base = buffer::cache_sector(lba, n);
    let (accessed, res, failed) = open_block_read(
        dev,
        hw_id,
        block_size,
        lba,
        before,
        after,
        r,
    );
    if !res.is_hit {
        lemma_image_fills(
            dev,
            image,
            hw_id,
            base,
            block_size,
            res.buf_offset as int,
            0,
            n as int,
            before.arena,
            after.arena,
            failed,
        );
    }
    law_read_keeps_store(dev, hw_id, block_size, lba, before, after, r);
    law_read_gives_what_the_device_gave(dev, hw_id, block_size, lba, before, after, r->Ok_0);
    reveal(is_image);
}

/// Reading a span of a device that never fails and does not change gives its bytes.
pub proof fn law_span_reads_the_image(
    dev: DeviceAnswers,
    image: spec_fn(usize) -> Seq<u8>,
    hw_id: usize,
    block_size: usize,
    first_lba: usize,
    offset: int,
    len: int,
    before: Store,
    after: Store,
    r: Result<Seq<u8>, Error>,
)
    requires
        reader::gives_blocks(dev),
        is_image(dev, hw_id, block_size, image),
        before.can_serve(block_size),
        coherent(dev, hw_id, block_size, before),
        0 <= offset,
        0 <= len,
        reader::span_read(dev, hw_id, block_size, first_lba, offset, len, before, after, r),
    ensures
        r == Ok::<Seq<u8>, Error>(image_span(image, block_size, first_lba, offset, len)),
        coherent(dev, hw_id, block_size, after),
        after.can_serve(block_size),
        after.same_layout(before),
    decreases len,
{
    let whole = image_span(image, block_size, first_lba, offset, len);
    if len <= 0 {
        assert(whole =~= Seq::empty());
    } else {
        let lba = reader::lba_of(first_lba, offset, block_size);
        let start = offset % block_size as int;
        let n = reader::in_first_block(offset, len, block_size);
        let (between, out) = choose|between: Store, out: Result<Seq<u8>, Error>| #[trigger]
            reader::block_read(dev, hw_id, block_size, lba, before, between, out) && match out {
                Err(e) => after == between && r == Err::<Seq<u8>, Error>(e),
                Ok(block) => (r matches Ok(bytes) ==> bytes.len() >= n && bytes.take(n)
                    == block.subrange(start, start + n)) && reader::span_read(
                    dev,
                    hw_id,
                    block_size,
                    first_lba,
                    offset + n,
                    len - n,
                    between,
                    after,
                    reader::after_head(r, n),
                ),
            };
        law_block_reads_the_image(dev, image, hw_id, block_size, lba, before, between, out);
        law_span_reads_the_image(
            dev,
            image,
            hw_id,
            block_size,
            first_lba,
            offset + n,
            len - n,
            between,
            after,
            reader::after_head(r, n),
        );
        let bytes = r->Ok_0;
        let rest = image_span(image, block_size, first_lba, offset + n, len - n);
        assert forall|k: int| 0 <= k < n implies #[trigger] whole[k] == image(lba)[start + k] by {
            lemma_same_block(offset, k, block_size as int);
        }
        assert(whole.take(n) =~= image(lba).subrange(start, start + n));
        assert(whole.skip(n) =~= rest);
        assert(bytes =~= bytes.take(n) + bytes.skip(n));
        assert(whole =~= whole.take(n) + whole.skip(n));
    }
}

/// Bytes that lie in one block have the same quotient by the block size.
proof fn lemma_same_block(offset: int, k: int, block_size: int)
    requires
        0 <= offset,
        0 < block_size,
        0 <= k,
        offset % block_size + k < block_size,
    ensures
        (offset + k) / block_size == offset / block_size,
        (offset + k) % block_size == offset % block_size + k,
{
    vstd::arithmetic::div_mod::lemma_fundamental_div_mod(offset, block_size);
    assert(block_size * (offset / block_size) == (offset / block_size) * block_size)
        by (nonlinear_arith);
    vstd::arithmetic::div_mod::lemma_fundamental_div_mod_converse(
        offset + k,
        block_size,
        offset / block_size,
        offset % block_size + k,
    );
}

/// What lies in a span of an image is what lies there on the disk: byte `k` of the span is byte `j`
/// of block `lba` where both are as far from the start of the disk.
pub proof fn law_span_lies_where_it_says(
    image: spec_fn(usize) -> Seq<u8>,
    block_size: usize,
    first_lba: usize,
    offset: int,
    len: int,
    k: int,
    lba: usize,
    j: int,
)
    requires
        block_size > 0,
        0 <= offset,
        0 <= k < len,
        0 <= j < block_size,
        lba * block_size + j == first_lba * block_size + offset + k,
    ensures
        image_span(image, block_size, first_lba, offset, len).len() == len,
        image_span(image, block_size, first_lba, offset, len)[k] == image(lba)[j],
{
    let at = offset + k;
    let q = lba - first_lba;
    assert(at == q * block_size + j) by (nonlinear_arith)
        requires
            lba * block_size + j == first_lba * block_size + at,
            q == lba - first_lba,
    ;
    vstd::arithmetic::div_mod::lemma_fundamental_div_mod_converse(at, block_size as int, q, j);
    assert(q >= 0) by (nonlinear_arith)
        requires
            q * block_size + j == at,
            at >= 0,
            0 <= j < block_size,
    ;
}

} // verus!
