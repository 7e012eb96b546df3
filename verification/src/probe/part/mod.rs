//! Partition tables.
pub mod gpt;
pub mod mbr;

use crate::error::Error;
use crate::probe;
use crate::probe::ReadMade;
use vstd::prelude::*;

verus! {

/// The blocks of one partition.
#[derive(Debug, Clone, Copy, PartialEq, Eq, Structural)]
pub struct PartitionRange {
    pub start_lba: usize,
    pub num_blocks: usize,
}

/// What every prober is given: the first block of the device and the device's block size.
pub struct ProbeContext<'a> {
    pub sector0: &'a [u8],
    pub block_size: usize,
}

/// A registered partition table prober.
#[derive(Debug, Clone, Copy, PartialEq, Eq, Structural)]
pub enum PartProber {
    Gpt,
    Mbr,
}

/// How many probers are registered.
pub const PARTITION_TABLE_PROBERS: usize = 2;

/// A partition table that lists no partition is no match.
pub open spec fn match_of(parts: Seq<PartitionRange>) -> Option<Seq<PartitionRange>> {
    if parts.len() == 0 {
        None
    } else {
        Some(parts)
    }
}

/// The partitions that a prober found.
pub open spec fn parts_of(found: Option<Vec<PartitionRange>>) -> Option<Seq<PartitionRange>> {
    match found {
        Some(parts) => Some(parts@),
        None => None,
    }
}

impl PartProber {
    /// The probers in the order in which they are tried.
    pub open spec fn spec_registered(i: int) -> PartProber {
        if i == 0 {
            PartProber::Gpt
        } else {
            PartProber::Mbr
        }
    }

    /// What the prober finds on a disk with first block `sector0`, having made the reads `reads`.
    pub open spec fn run(
        self,
        sector0: Seq<u8>,
        block_size: usize,
        reads: Seq<ReadMade>,
        found: Option<Seq<PartitionRange>>,
    ) -> bool {
        match self {
            PartProber::Gpt => gpt::gpt_run(sector0, block_size, reads, found),
            PartProber::Mbr => reads.len() == 0 && found == mbr::mbr_found(sector0),
        }
    }

    /// Prober number `i` of the registry.
    pub fn registered(i: usize) -> (r: PartProber)
        requires
            i < PARTITION_TABLE_PROBERS,
        ensures
            r == PartProber::spec_registered(i as int),
    {
        if i == 0 {
            PartProber::Gpt
        } else {
            PartProber::Mbr
        }
    }

    /// The name under which the prober is registered.
    pub fn name(&self) -> (r: &'static str)
        ensures
            *self is Gpt ==> r@ == "gpt"@,
            *self is Mbr ==> r@ == "mbr"@,
    {
        match self {
            PartProber::Gpt => "gpt",
            PartProber::Mbr => "mbr",
        }
    }

    /// Runs the prober.
    pub fn probe<F: FnMut(usize, usize) -> Result<Vec<u8>, Error>>(
        &self,
        ctx: &ProbeContext<'_>,
        read_lba: &mut F,
    ) -> (found: Option<Vec<PartitionRange>>)
        requires
            probe::reads_exactly(*old(read_lba)),
        ensures
            *final(read_lba) == *old(read_lba),
            exists|reads: Seq<ReadMade>| #[trigger]
                self.run(ctx.sector0@, ctx.block_size, reads, parts_of(found)) && (forall|i: int|
                    0 <= i < reads.len() ==> probe::answered(*old(read_lba), #[trigger] reads[i])),
    {
        match self {
            PartProber::Gpt => {
                let found = gpt::probe_gpt(ctx, read_lba);
                proof {
                    let reads = choose|reads: Seq<ReadMade>| #[trigger]
                        gpt::gpt_run(ctx.sector0@, ctx.block_size, reads, parts_of(found)) && (
                        forall|i: int|
                            0 <= i < reads.len() ==> probe::answered(
                                *old(read_lba),
                                #[trigger] reads[i],
                            ));
                    assert(self.run(ctx.sector0@, ctx.block_size, reads, parts_of(found)));
                }
                found
            },
            PartProber::Mbr => {
                let found = mbr::probe_mbr(ctx, read_lba);
                assert(self.run(
                    ctx.sector0@,
                    ctx.block_size,
                    Seq::<ReadMade>::empty(),
                    parts_of(found),
                ));
                found
            },
        }
    }
}

/// The result of trying the registered probers in order: the first match counts, and without a
/// match there are no partitions. The one table that is looked for after a GUID partition table
/// makes no reads.
pub open spec fn parts_run(
    sector0: Seq<u8>,
    block_size: usize,
    reads: Seq<ReadMade>,
    found: Seq<PartitionRange>,
) -> bool {
    exists|gpt: Option<Seq<PartitionRange>>| #[trigger]
        gpt::gpt_run(sector0, block_size, reads, gpt) && found == (match gpt {
            Some(parts) => parts,
            None => match mbr::mbr_found(sector0) {
                Some(parts) => parts,
                None => Seq::empty(),
            },
        })
}

/// Detects the partitions of a device by trying all registered probers in order.
pub fn detect_partitions_registered<F: FnMut(usize, usize) -> Result<Vec<u8>, Error>>(
    sector0: &[u8],
    block_size: usize,
    read_lba: F,
) -> (found: Vec<PartitionRange>)
    requires
        probe::reads_exactly(read_lba),
    ensures
        exists|reads: Seq<ReadMade>| #[trigger]
            parts_run(sector0@, block_size, reads, found@) && (forall|i: int|
                0 <= i < reads.len() ==> probe::answered(read_lba, #[trigger] reads[i])),
{
    let ctx = ProbeContext { sector0, block_size };
    let mut reader = read_lba;
    let ghost mut reads: Seq<ReadMade> = Seq::empty();
    let mut i: usize = 0;
    while i < PARTITION_TABLE_PROBERS
        invariant
            i <= PARTITION_TABLE_PROBERS,
            reader == read_lba,
            probe::reads_exactly(read_lba),
            ctx.sector0@ == sector0@,
            ctx.block_size == block_size,
            forall|j: int| 0 <= j < reads.len() ==> probe::answered(read_lba, #[trigger] reads[j]),
            i == 0 ==> reads.len() == 0,
            i > 0 ==> gpt::gpt_run(sector0@, block_size, reads, None),
            i > 1 ==> mbr::mbr_found(sector0@) is None,
        decreases PARTITION_TABLE_PROBERS - i,
    {
        let prober = PartProber::registered(i);
        let found = prober.probe(&ctx, &mut reader);
        proof {
            let made = choose|made: Seq<ReadMade>| #[trigger]
                prober.run(sector0@, block_size, made, parts_of(found)) && (forall|i: int|
                    0 <= i < made.len() ==> probe::answered(read_lba, #[trigger] made[i]));
            if i == 0 {
                reads = made;
            }
        }
        if let Some(parts) = found {
            if parts.len() > 0 {
                assert(parts_run(sector0@, block_size, reads, parts@)) by {
                    assert(gpt::gpt_run(
                        sector0@,
                        block_size,
                        reads,
                        if i == 0 {
                            Some(parts@)
                        } else {
                            None
                        },
                    ));
                }
                return parts;
            }
            assert(false) by {
                gpt::lemma_gpt_found_not_empty(sector0@, block_size, reads, Some(parts@));
            }
        }
        i = i + 1;
    }
    let none: Vec<PartitionRange> = Vec::new();
    assert(parts_run(sector0@, block_size, reads, none@));
    none
}

/// A disk has the partitions of its GUID partition table, if that lists any, else those of its boot
/// record, else none.
pub proof fn law_guid_table_comes_first(
    sector0: Seq<u8>,
    block_size: usize,
    reads: Seq<ReadMade>,
    found: Seq<PartitionRange>,
)
    requires
        parts_run(sector0, block_size, reads, found),
    ensures
        ({
            ||| found.len() > 0 && gpt::gpt_run(sector0, block_size, reads, Some(found))
            ||| gpt::gpt_run(sector0, block_size, reads, None) && mbr::mbr_found(sector0) == Some(
                found,
            )
            ||| gpt::gpt_run(sector0, block_size, reads, None) && mbr::mbr_found(sector0) is None
                && found.len() == 0
        }),
{
    let by_guid = choose|by_guid: Option<Seq<PartitionRange>>| #[trigger]
        gpt::gpt_run(sector0, block_size, reads, by_guid) && found == (match by_guid {
            Some(parts) => parts,
            None => match mbr::mbr_found(sector0) {
                Some(parts) => parts,
                None => Seq::empty(),
            },
        });
    gpt::lemma_gpt_found_not_empty(sector0, block_size, reads, by_guid);
}

} // verus!
