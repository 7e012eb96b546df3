//! File systems.
pub mod extfs;
pub mod fatfs;
pub mod initrdfs;

use crate::error::Error;
use crate::probe;
use vstd::prelude::*;

verus! {

/// The file systems that a partition can be found to hold.
#[derive(Debug, Clone, Copy, PartialEq, Eq, Structural)]
pub enum FileSystemType {
    Fat16,
    Fat32,
    ExFat,
    Ext2,
    Ext3,
    Ext4,
    InitrdFS,
    Unknown,
}

/// A registered file system prober: it looks at one window of the partition.
#[derive(Debug, Clone, Copy, PartialEq, Eq, Structural)]
pub enum FsProber {
    FatExfat,
    Extfs,
    Initrdfs,
}

/// How many probers are registered.
pub const FILESYSTEM_PROBERS: usize = 3;

impl FsProber {
    /// The probers in the order in which they are tried.
    pub open spec fn spec_registered(i: int) -> FsProber {
        if i == 0 {
            FsProber::FatExfat
        } else if i == 1 {
            FsProber::Extfs
        } else {
            FsProber::Initrdfs
        }
    }

    /// Where the window starts that the prober looks at.
    pub open spec fn spec_offset(self) -> usize {
        match self {
            FsProber::FatExfat => 0,
            FsProber::Extfs => 1024,
            FsProber::Initrdfs => 0,
        }
    }

    /// How long the window is that the prober looks at.
    pub open spec fn spec_window(self) -> usize {
        match self {
            FsProber::FatExfat => 512,
            FsProber::Extfs => 1024,
            FsProber::Initrdfs => 4,
        }
    }

    /// What the prober makes of its window.
    pub open spec fn spec_classify(self, window: Seq<u8>) -> Option<FileSystemType> {
        match self {
            FsProber::FatExfat => fatfs::boot_sector_fs(window),
            FsProber::Extfs => extfs::superblock_fs(window),
            FsProber::Initrdfs => initrdfs::header_fs(window),
        }
    }

    /// What the prober makes of a read of its window: nothing, if the read failed.
    pub open spec fn verdict(self, window: Option<Seq<u8>>) -> Option<FileSystemType> {
        match window {
            Some(bytes) => self.spec_classify(bytes),
            None => None,
        }
    }

    /// Prober number `i` of the registry.
    pub fn registered(i: usize) -> (r: FsProber)
        requires
            i < FILESYSTEM_PROBERS,
        ensures
            r == FsProber::spec_registered(i as int),
    {
        if i == 0 {
            FsProber::FatExfat
        } else if i == 1 {
            FsProber::Extfs
        } else {
            FsProber::Initrdfs
        }
    }

    /// The name under which the prober is registered.
    pub fn name(&self) -> (r: &'static str)
        ensures
            *self is FatExfat ==> r@ == "fatfs/exfat"@,
            *self is Extfs ==> r@ == "extfs"@,
            *self is Initrdfs ==> r@ == "initrdfs"@,
    {
        match self {
            FsProber::FatExfat => "fatfs/exfat",
            FsProber::Extfs => "extfs",
            FsProber::Initrdfs => "initrdfs",
        }
    }

    /// Where the window starts that the prober looks at.
    pub fn offset(&self) -> (r: usize)
        ensures
            r == self.spec_offset(),
    {
        match self {
            FsProber::FatExfat => 0,
            FsProber::Extfs => 1024,
            FsProber::Initrdfs => 0,
        }
    }

    /// How long the window is that the prober looks at.
    pub fn window(&self) -> (r: usize)
        ensures
            r == self.spec_window(),
    {
        match self {
            FsProber::FatExfat => 512,
            FsProber::Extfs => 1024,
            FsProber::Initrdfs => 4,
        }
    }

    /// What the prober makes of its window.
    pub fn classify(&self, window: &[u8]) -> (r: Option<FileSystemType>)
        requires
            window@.len() == self.spec_window(),
        ensures
            r == self.spec_classify(window@),
    {
        match self {
            FsProber::FatExfat => fatfs::classify_boot_sector(window),
            FsProber::Extfs => extfs::classify_superblock(window),
            FsProber::Initrdfs => initrdfs::classify_header(window),
        }
    }

    /// Reads the prober's window and classifies it; a failed read is no match.
    pub fn probe<F: FnMut(usize, usize) -> Result<Vec<u8>, Error>>(
        &self,
        read_offset: &mut F,
    ) -> (r: Option<FileSystemType>)
        requires
            probe::reads_exactly(*old(read_offset)),
        ensures
            *final(read_offset) == *old(read_offset),
            exists|out: Result<Vec<u8>, Error>| #[trigger]
                call_ensures(*old(read_offset), (self.spec_offset(), self.spec_window()), out)
                    && r == self.verdict(probe::bytes_of(out)),
    {
        match read_offset(self.offset(), self.window()) {
            Ok(window) => self.classify(window.as_slice()),
            Err(_) => None,
        }
    }
}

/// The result of trying the registered probers in order on what their windows read as: the first
/// match counts, no prober after it is tried, and without a match the type is unknown.
pub open spec fn fs_run(windows: Seq<Option<Seq<u8>>>, found: FileSystemType) -> bool {
    &&& 0 < windows.len() <= FILESYSTEM_PROBERS
    &&& forall|i: int|
        0 <= i < windows.len() - 1 ==> FsProber::spec_registered(i).verdict(#[trigger] windows[i])
            is None
    &&& match FsProber::spec_registered(windows.len() - 1).verdict(windows.last()) {
        Some(fs) => found == fs,
        None => windows.len() == FILESYSTEM_PROBERS && found == FileSystemType::Unknown,
    }
}

/// Detects the file system by trying all registered probers in order.
pub fn detect_fs_registered<F: FnMut(usize, usize) -> Result<Vec<u8>, Error>>(
    read_offset: F,
) -> (found: FileSystemType)
    requires
        probe::reads_exactly(read_offset),
    ensures
        exists|outs: Seq<Result<Vec<u8>, Error>>|
            {
                &&& forall|i: int|
                    0 <= i < outs.len() ==> call_ensures(
                        read_offset,
                        (
                            FsProber::spec_registered(i).spec_offset(),
                            FsProber::spec_registered(i).spec_window(),
                        ),
                        #[trigger] outs[i],
                    )
                &&& #[trigger] fs_run(probe::all_bytes(outs), found)
            },
{
    let mut reader = read_offset;
    let ghost mut outs: Seq<Result<Vec<u8>, Error>> = Seq::empty();
    let mut i: usize = 0;
    while i < FILESYSTEM_PROBERS
        invariant
            i <= FILESYSTEM_PROBERS,
            reader == read_offset,
            probe::reads_exactly(read_offset),
            outs.len() == i,
            forall|j: int|
                0 <= j < i ==> {
                    &&& call_ensures(
                        read_offset,
                        (
                            FsProber::spec_registered(j).spec_offset(),
                            FsProber::spec_registered(j).spec_window(),
                        ),
                        #[trigger] outs[j],
                    )
                    &&& FsProber::spec_registered(j).verdict(probe::bytes_of(outs[j])) is None
                },
        decreases FILESYSTEM_PROBERS - i,
    {
        let prober = FsProber::registered(i);
        let verdict = prober.probe(&mut reader);
        proof {
            let out = choose|out: Result<Vec<u8>, Error>| #[trigger]
                call_ensures(read_offset, (prober.spec_offset(), prober.spec_window()), out)
                    && verdict == prober.verdict(probe::bytes_of(out));
            outs = outs.push(out);
        }
        if let Some(found) = verdict {
            proof {
                probe::lemma_all_bytes(outs);
                assert(fs_run(probe::all_bytes(outs), found));
            }
            return found;
        }
        i = i + 1;
    }
    proof {
        probe::lemma_all_bytes(outs);
        assert(fs_run(probe::all_bytes(outs), FileSystemType::Unknown));
    }
    FileSystemType::Unknown
}

/// The file systems are looked for in one order, the first match counts, and without a match the
/// type is unknown: FAT and exFAT by the first 512 bytes, then ext by the 1024 bytes from byte 1024
/// on, then the initial RAM disk by the first 4. `windows` are what was read there; nothing is read
/// after a match, and what could not be read is no match.
pub proof fn law_first_match_counts(windows: Seq<Option<Seq<u8>>>, found: FileSystemType)
    requires
        fs_run(windows, found),
    ensures
        1 <= windows.len() <= 3,
        FsProber::spec_registered(0).spec_offset() == 0,
        FsProber::spec_registered(0).spec_window() == 512,
        FsProber::spec_registered(1).spec_offset() == 1024,
        FsProber::spec_registered(1).spec_window() == 1024,
        FsProber::spec_registered(2).spec_offset() == 0,
        FsProber::spec_registered(2).spec_window() == 4,
        ({
            let fat = match windows[0] {
                Some(bytes) => fatfs::boot_sector_fs(bytes),
                None => None,
            };
            let ext = match windows[1] {
                Some(bytes) => extfs::superblock_fs(bytes),
                None => None,
            };
            let initrd = match windows[2] {
                Some(bytes) => initrdfs::header_fs(bytes),
                None => None,
            };
            match (fat, ext, initrd) {
                (Some(fs), _, _) => windows.len() == 1 && found == fs,
                (None, Some(fs), _) => windows.len() == 2 && found == fs,
                (None, None, Some(fs)) => windows.len() == 3 && found == fs,
                (None, None, None) => windows.len() == 3 && found == FileSystemType::Unknown,
            }
        }),
{
    if windows.len() > 1 {
        assert(FsProber::spec_registered(0).verdict(windows[0]) is None);
    }
    if windows.len() > 2 {
        assert(FsProber::spec_registered(1).verdict(windows[1]) is None);
    }
}

} // verus!
