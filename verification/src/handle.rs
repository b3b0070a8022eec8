//! Handle metadata and minimal handle traits.
use vstd::prelude::*;
use vstd::std_specs::convert::FromSpecImpl;
use crate::volume::Cluster;

verus! {

/// Physical representation of a directory.
#[derive(Clone, Copy, Debug, PartialEq, Eq)]
pub enum DirectoryLocation {
    /// Fixed root-directory area used by FAT12 and FAT16.
    FixedRoot,
    /// Directory stored in a cluster chain.
    Cluster(Cluster),
}

/// Metadata required to access a directory.
#[derive(Clone, Copy, Debug, PartialEq, Eq)]
pub struct DirectoryInfo {
    /// On-disk directory location.
    pub location: DirectoryLocation,
}

/// Location of a directory entry.
#[derive(Clone, Copy, Debug, PartialEq, Eq)]
pub struct DirectoryEntryLocation {
    /// Directory containing the entry.
    pub directory: DirectoryLocation,
    /// Zero-based entry index.
    pub index: u32,
}

/// Exposes directory metadata to access traits.
pub trait DirectoryHandle {
    /// Returns the directory metadata.
    fn directory_info(&self) -> &DirectoryInfo;
}

/// Minimal directory handle containing only [`DirectoryInfo`].
#[derive(Clone, Copy, Debug, PartialEq, Eq)]
pub struct BasicDirectoryHandle(pub DirectoryInfo);

impl From<DirectoryInfo> for BasicDirectoryHandle {
    fn from(value: DirectoryInfo) -> (r: Self) {
        BasicDirectoryHandle(value)
    }
}

impl FromSpecImpl<DirectoryInfo> for BasicDirectoryHandle {
    open spec fn obeys_from_spec() -> bool {
        true
    }

    open spec fn from_spec(v: DirectoryInfo) -> Self {
        BasicDirectoryHandle(v)
    }
}

impl DirectoryHandle for BasicDirectoryHandle {
    fn directory_info(&self) -> (r: &DirectoryInfo)
        ensures
            *r == self.0,
    {
        &self.0
    }
}

/// Metadata required to access a file.
#[derive(Clone, Copy, Debug, PartialEq, Eq)]
pub struct FileInfo {
    /// First data cluster, or `None` for an empty file.
    pub first_cluster: Option<Cluster>,
    /// File length in bytes.
    pub length: u64,
    /// Directory-entry attributes.
    pub attributes: u8,
    /// Location of the file's directory entry.
    pub entry: DirectoryEntryLocation,
}

/// Exposes file metadata to access traits.
pub trait FileHandle {
    /// Returns the file metadata.
    fn file_info(&self) -> &FileInfo;
}

/// Exposes mutable file metadata to write traits.
pub trait MutableFileHandle: FileHandle {
    /// Returns mutable file metadata.
    fn file_info_mut(&mut self) -> &mut FileInfo;
}

/// Minimal file handle containing only [`FileInfo`].
#[derive(Clone, Copy, Debug, PartialEq, Eq)]
pub struct BasicFileHandle(pub FileInfo);

impl From<FileInfo> for BasicFileHandle {
    fn from(value: FileInfo) -> (r: Self) {
        BasicFileHandle(value)
    }
}

impl FromSpecImpl<FileInfo> for BasicFileHandle {
    open spec fn obeys_from_spec() -> bool {
        true
    }

    open spec fn from_spec(v: FileInfo) -> Self {
        BasicFileHandle(v)
    }
}

impl FileHandle for BasicFileHandle {
    fn file_info(&self) -> (r: &FileInfo)
        ensures
            *r == self.0,
    {
        &self.0
    }
}

impl MutableFileHandle for BasicFileHandle {
    fn file_info_mut(&mut self) -> (r: &mut FileInfo)
        ensures
            *r == old(self).0,
            final(self).0 == *final(r),
    {
        &mut self.0
    }
}

} // verus!
