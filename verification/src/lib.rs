//! Extensible access to FAT12, FAT16, and FAT32 volumes.
//!
//! File system behaviour is provided as trait default methods. Applications own the file system
//! type and implement the capability traits they need: `BlockAccess` (and `BlockWrite` for
//! writing) for the device, `ChainAccess` for the volume, then the directory, file, allocation
//! and write traits, most of which need no method of their own.
use vstd::prelude::*;

pub mod access;
pub mod format;
pub mod handle;
pub mod mbr;
mod name;
pub mod volume;
pub mod write;

pub use access::{
    AllocationAccess, BlockAccess, BlockWrite, ChainAccess, DirectoryAccess, DirectoryEntry, Error,
    FileAccess, FileSystem, FoundEntry, read_volume,
};
pub use format::FatType;
pub use handle::{
    BasicDirectoryHandle, BasicFileHandle, DirectoryEntryLocation, DirectoryHandle, DirectoryInfo,
    DirectoryLocation, FileHandle, FileInfo, MutableFileHandle,
};
pub use mbr::{
    MBR_PARTITION_COUNT, MbrError, MbrFormatError, MbrPartitionEntry, MbrPartitionTable, read_mbr,
};
pub use volume::{Cluster, Volume};
pub use write::{DirectoryWrite, FatFs, FileWrite, FreeDirectoryEntries};

verus! {

} // verus!
