//! Recognising the file system of a partition in one go.
pub use crate::probe::fs::FileSystemType;

use crate::error::Error;
use crate::probe;
use crate::probe::fs;
use crate::probe::fs::extfs::classify_superblock;
use crate::probe::fs::fatfs::classify_boot_sector;
use crate::probe::fs::initrdfs::classify_header;
use crate::probe::fs::FsProber;
use vstd::prelude::*;

verus! {

/// Detects the file system with a reader of byte offsets: first FAT and exFAT by the boot sector,
/// then ext by the superblock, then the initial RAM disk by its first bytes.
pub fn detect_fs<F: FnMut(usize, usize) -> Result<Vec<u8>, Error>>(read_offset: F) -> (found:
    FileSystemType)
    requires
        probe::reads_exactly(read_offset),
    ensures
        exists|outs: Seq<Result<Vec<u8>, Error>>|
            {
                &&& forall|i: int|
                    0 <= i < outs.len() ==> call_ensures(
                        read_offset,
                        (
                            FsProber::spec_registered(i).spec_offset(),
                            FsProber::spec_registered(i).spec_window(),
                        ),
                        #[trigger] outs[i],
                    )
                &&& #[trigger] fs::fs_run(probe::all_bytes(outs), found)
            },
{
    let mut reader = read_offset;

    let boot_sector = reader(0, 512);
    let ghost outs = seq![boot_sector];
    if let Ok(bytes) = &boot_sector {
        if let Some(found) = classify_boot_sector(bytes.as_slice()) {
            proof {
                probe::lemma_all_bytes(outs);
                assert(fs::fs_run(probe::all_bytes(outs), found));
            }
            return found;
        }
    }
    let superblock = reader(1024, 1024);
    let ghost outs = seq![boot_sector, superblock];
    if let Ok(bytes) = &superblock {
        if let Some(found) = classify_superblock(bytes.as_slice()) {
            proof {
                probe::lemma_all_bytes(outs);
                assert(fs::fs_run(probe::all_bytes(outs), found));
            }
            return found;
        }
    }
    let header = reader(0, 4);
    let ghost outs = seq![boot_sector, superblock, header];
    proof {
        probe::lemma_all_bytes(outs);
    }
    if let Ok(bytes) = &header {
        if let Some(found) = classify_header(bytes.as_slice()) {
            assert(fs::fs_run(probe::all_bytes(outs), found));
            return found;
        }
    }
    assert(fs::fs_run(probe::all_bytes(outs), FileSystemType::Unknown));
    FileSystemType::Unknown
}

/// Both ways of detecting a file system agree: whatever the windows read as, there is one result.
pub proof fn law_detections_agree(
    windows: Seq<Option<Seq<u8>>>,
    one: FileSystemType,
    more: Seq<Option<Seq<u8>>>,
    other: FileSystemType,
)
    requires
        fs::fs_run(windows, one),
        fs::fs_run(more, other),
        forall|i: int| 0 <= i < windows.len() && i < more.len() ==> windows[i] == more[i],
    ensures
        one == other,
        windows == more,
{
    if windows.len() < more.len() {
        assert(windows.last() == more[windows.len() - 1]);
    } else if more.len() < windows.len() {
        assert(more.last() == windows[more.len() - 1]);
    }
    assert(windows =~= more);
}

} // verus!
