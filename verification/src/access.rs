//! Block, cluster-chain, directory, file, and allocation access traits.
use vstd::prelude::*;
use vstd::std_specs::convert::FromSpecImpl;
use vstd::string::StringSliceAdditionalSpecFns;
use vstd::std_specs::convert::FromSpec;
use crate::format::{
    Bpb, DIRECTORY_ENTRY_SIZE, FatEntry, FatType, FormatError, LfnEntry, RawDirEntry, ShortName,
    spec_checksum, spec_contains, spec_entry_width, spec_first_index_of, spec_short_name_matches,
};
use crate::handle::{
    BasicDirectoryHandle, BasicFileHandle, DirectoryEntryLocation, DirectoryHandle, DirectoryInfo,
    DirectoryLocation, FileHandle, FileInfo,
};
use crate::name::{
    component_str, lemma_utf16_take, next_component, spec_path_components, spec_utf16, utf16_char,
};
use crate::volume::{Cluster, Volume, spec_fat_sectors};

verus! {

/// An error produced while accessing a FAT volume.
#[derive(Clone, Copy, Debug, PartialEq, Eq)]
pub enum Error<E> {
    /// The underlying block device returned an error.
    Io(E),
    /// On-disk data is not a valid FAT representation.
    InvalidFormat(FormatError),
    /// A cluster chain is inconsistent.
    CorruptChain,
    /// The requested entry does not exist.
    NotFound,
    /// The requested entry is not a file.
    NotAFile,
    /// The requested entry is not a directory.
    NotADirectory,
    /// The path cannot identify an entry.
    InvalidPath,
    /// No free cluster is available.
    NoSpace,
    /// An entry with the requested name already exists.
    AlreadyExists,
    /// The directory cannot hold another entry.
    DirectoryFull,
    /// The requested name exceeds the FAT limit.
    NameTooLong,
    /// The caller-provided name buffer is too small.
    NameBufferTooSmall,
    /// The requested name is not valid for FAT.
    InvalidName,
    /// The directory still contains entries.
    NotEmpty,
    /// The entry is marked read-only.
    ReadOnly,
    /// An offset or length is outside the supported range.
    OutOfBounds,
}

impl<E> From<FormatError> for Error<E> {
    fn from(value: FormatError) -> (r: Self) {
        Error::InvalidFormat(value)
    }
}

impl<E> FromSpecImpl<FormatError> for Error<E> {
    open spec fn obeys_from_spec() -> bool {
        true
    }

    open spec fn from_spec(v: FormatError) -> Self {
        Error::InvalidFormat(v)
    }
}

/// Provides partial reads from fixed-size physical blocks.
///
/// Callers keep every access inside one block: `offset + out.len()` never exceeds the block size
/// that `block_size` reported.
pub trait BlockAccess {
    /// Error returned by the block device.
    type Error;

    /// Returns the physical block size in bytes.
    fn block_size(&self) -> usize;

    /// Reads a range contained in one physical block.
    fn read_block_at(&mut self, block: u64, offset: usize, out: &mut [u8]) -> (r: Result<(), Self::Error>)
        ensures
            final(out)@.len() == old(out)@.len(),
    ;
}

/// Provides partial writes to fixed-size physical blocks.
///
/// Callers keep every access inside one block: `offset + data.len()` never exceeds the block
/// size that `block_size` reported.
pub trait BlockWrite: BlockAccess {
    /// Writes a range contained in one physical block.
    fn write_block_at(&mut self, block: u64, offset: usize, data: &[u8]) -> Result<(), Self::Error>;
}

impl<T: BlockAccess + ?Sized> BlockAccess for &mut T {
    type Error = T::Error;

    fn block_size(&self) -> usize {
        (**self).block_size()
    }

    fn read_block_at(&mut self, block: u64, offset: usize, out: &mut [u8]) -> (r: Result<(), Self::Error>) {
        (**self).read_block_at(block, offset, out)
    }
}

impl<T: BlockWrite + ?Sized> BlockWrite for &mut T {
    fn write_block_at(&mut self, block: u64, offset: usize, data: &[u8]) -> Result<(), Self::Error> {
        (**self).write_block_at(block, offset, data)
    }
}

/// The part of a device access of `remaining` bytes at `byte_offset` that falls inside one block:
/// the block number, the offset inside the block, and the length.
pub fn block_span(byte_offset: u64, remaining: usize, block_size: usize) -> (r: (u64, usize, usize))
    requires
        block_size > 0,
    ensures
        r.0 == (byte_offset as int) / (block_size as int),
        r.1 == (byte_offset as int) % (block_size as int),
        r.2 == if block_size - r.1 < remaining { block_size - r.1 } else { remaining as int },
        r.1 + r.2 <= block_size,
        remaining > 0 ==> r.2 > 0,
{
    let bs = block_size as u64;
    let block = byte_offset / bs;
    let offset = (byte_offset % bs) as usize;
    let available = block_size - offset;
    let length = if available < remaining { available } else { remaining };
    (block, offset, length)
}

/// Reads one block range into `out[start..start + length]`.
fn read_block_into<T: BlockAccess + ?Sized>(device: &mut T, block: u64, offset: usize, out: &mut [u8], start: usize, length: usize) -> (r: Result<(), T::Error>)
    requires
        start + length <= old(out)@.len(),
    ensures
        final(out)@.len() == old(out)@.len(),
{
    let (_, rest) = out.split_at_mut(start);
    let (part, _) = rest.split_at_mut(length);
    device.read_block_at(block, offset, part)
}

/// Reads `out.len()` bytes at an absolute device offset, block by block.
pub(crate) fn read_device_at<T: BlockAccess + ?Sized>(device: &mut T, byte_offset: u64, out: &mut [u8]) -> (r: Result<(), Error<T::Error>>)
    ensures
        final(out)@.len() == old(out)@.len(),
        old(out)@.len() > 0 && byte_offset + old(out)@.len() > u64::MAX ==> r is Err,
        r matches Err(e) ==> (e is Io || e is OutOfBounds),
{
    let block_size = device.block_size();
    if block_size == 0 {
        return Err(Error::OutOfBounds);
    }
    let n = out.len();
    let mut done: usize = 0;
    let mut position: u64 = byte_offset;
    while done < n
        invariant
            done <= n,
            out@.len() == n,
            n == old(out)@.len(),
            block_size > 0,
            position == byte_offset + done,
        decreases n - done,
    {
        let (block, offset, length) = block_span(position, n - done, block_size);
        if let Err(e) = read_block_into(device, block, offset, out, done, length) {
            return Err(Error::Io(e));
        }
        position = match position.checked_add(length as u64) {
            Some(p) => p,
            None => return Err(Error::OutOfBounds),
        };
        done = done + length;
    }
    Ok(())
}

/// Writes `data` at an absolute device offset, block by block.
pub(crate) fn write_device_at<T: BlockWrite + ?Sized>(device: &mut T, byte_offset: u64, data: &[u8]) -> (r: Result<(), Error<T::Error>>)
    ensures
        data@.len() > 0 && byte_offset + data@.len() > u64::MAX ==> r is Err,
        r matches Err(e) ==> (e is Io || e is OutOfBounds),
{
    let block_size = device.block_size();
    if block_size == 0 {
        return Err(Error::OutOfBounds);
    }
    let n = data.len();
    let mut done: usize = 0;
    let mut position: u64 = byte_offset;
    while done < n
        invariant
            done <= n,
            data@.len() == n,
            block_size > 0,
            position == byte_offset + done,
        decreases n - done,
    {
        let (block, offset, length) = block_span(position, n - done, block_size);
        let (_, rest) = data.split_at(done);
        let (part, _) = rest.split_at(length);
        match device.write_block_at(block, offset, part) {
            Ok(()) => {},
            Err(e) => return Err(Error::Io(e)),
        }
        position = match position.checked_add(length as u64) {
            Some(p) => p,
            None => return Err(Error::OutOfBounds),
        };
        done = done + length;
    }
    Ok(())
}

/// The volume that a boot sector describes, or why it describes none.
pub open spec fn spec_volume_from_boot_sector<E>(b: Seq<u8>) -> Result<Volume, Error<E>> {
    match Bpb::spec_parse(b) {
        Ok(bpb) => match Volume::spec_from_bpb(bpb) {
            Ok(v) => Ok(v),
            Err(e) => Err(Error::InvalidFormat(e)),
        },
        Err(e) => Err(Error::InvalidFormat(e)),
    }
}

/// Reads the volume layout that the bytes of a boot sector describe.
pub fn volume_from_boot_sector<E>(sector: &[u8]) -> (r: Result<Volume, Error<E>>)
    ensures
        r == spec_volume_from_boot_sector::<E>(sector@),
        r matches Ok(v) ==> v.spec_well_formed(),
{
    let bpb = match Bpb::parse(sector) {
        Ok(b) => b,
        Err(e) => return Err(Error::InvalidFormat(e)),
    };
    match Volume::from_bpb(bpb) {
        Ok(v) => Ok(v),
        Err(e) => Err(Error::InvalidFormat(e)),
    }
}

/// Reads and validates the volume metadata from a block device.
///
/// The result is what the 512 bytes at the start of the device describe.
pub fn read_volume<T: BlockAccess + ?Sized>(device: &mut T) -> (r: Result<Volume, Error<T::Error>>)
    ensures
        r matches Ok(v) ==> v.spec_well_formed(),
        (r is Ok || r matches Err(Error::InvalidFormat(_))) ==> exists|b: Seq<u8>|
            b.len() == 512 && #[trigger] spec_volume_from_boot_sector::<T::Error>(b) == r,
        r matches Err(e) ==> (e is Io || e is OutOfBounds || e is InvalidFormat),
{
    let mut boot_sector = [0u8; 512];
    let buf: &mut [u8] = &mut boot_sector;
    match read_device_at(device, 0, buf) {
        Ok(()) => {},
        Err(e) => return Err(e),
    }
    let r = volume_from_boot_sector::<T::Error>(&boot_sector);
    assert(spec_volume_from_boot_sector::<T::Error>(boot_sector@) == r);
    r
}

// ---------------------------------------------------------------------------
// Cluster chains
// ---------------------------------------------------------------------------

/// Whether `cluster` is at most the highest cluster number of the volume.
pub open spec fn spec_cluster_in_volume(volume: Volume, cluster: u32) -> bool {
    cluster <= volume.cluster_count + 1
}

/// Rejects a cluster number above the highest cluster of the volume.
pub fn validate_cluster<E>(volume: &Volume, cluster: Cluster) -> (r: Result<(), Error<E>>)
    ensures
        spec_cluster_in_volume(*volume, cluster.spec_get()) ==> r is Ok,
        !spec_cluster_in_volume(*volume, cluster.spec_get()) ==> r == Err::<(), Error<E>>(
            Error::CorruptChain,
        ),
{
    if cluster.get() as u64 > volume.cluster_count as u64 + 1 {
        Err(Error::CorruptChain)
    } else {
        Ok(())
    }
}

/// Byte offset of the start of FAT copy `fat`.
pub open spec fn spec_fat_start(volume: Volume, fat: int) -> int {
    (volume.fat_start_sector + fat * spec_fat_sectors(volume.bpb)) * volume.bpb.bytes_per_sector
}

/// Byte offset of the entry of `cluster` inside a FAT.
pub open spec fn spec_entry_offset(fat_type: FatType, cluster: int) -> int {
    match fat_type {
        FatType::Fat12 => cluster + cluster / 2,
        FatType::Fat16 => cluster * 2,
        FatType::Fat32 => cluster * 4,
    }
}

/// Byte offset of the start of FAT copy `fat`.
fn fat_start(volume: &Volume, fat: u8) -> (r: u64)
    requires
        fat < 256,
    ensures
        r == spec_fat_start(*volume, fat as int),
{
    let fat_sectors: u64 = if volume.bpb.sectors_per_fat_16 != 0 {
        volume.bpb.sectors_per_fat_16 as u64
    } else {
        volume.bpb.sectors_per_fat_32 as u64
    };
    assert(fat * fat_sectors <= 255 * 0xffff_ffff) by (nonlinear_arith)
        requires fat < 256, fat_sectors <= 0xffff_ffff;
    let sector = volume.fat_start_sector as u64 + fat as u64 * fat_sectors;
    let bps = volume.bpb.bytes_per_sector as u64;
    assert(sector * bps <= (0xffff_ffff + 255 * 0xffff_ffff) * 0xffff) by (nonlinear_arith)
        requires sector <= 0xffff_ffff + 255 * 0xffff_ffff, bps <= 0xffff;
    sector * bps
}

/// Byte offset of the entry of `cluster` inside the FAT that starts at `start`.
fn fat_entry_position(fat_type: FatType, start: u64, cluster: Cluster) -> (r: Option<u64>)
    ensures
        r matches Some(o) ==> o == start + spec_entry_offset(fat_type, cluster.spec_get() as int),
        r is None ==> start + spec_entry_offset(fat_type, cluster.spec_get() as int) > u64::MAX,
{
    let index = cluster.get() as u64;
    let within = match fat_type {
        FatType::Fat12 => index + index / 2,
        FatType::Fat16 => index * 2,
        FatType::Fat32 => index * 4,
    };
    start.checked_add(within)
}

/// Byte offset of the entry of `cluster` in the active FAT copy of a volume, if it fits in 64
/// bits.
pub open spec fn spec_fat_entry_offset(volume: Volume, cluster: u32) -> Option<u64> {
    let o = spec_fat_start(volume, volume.spec_active_fat() as int) + spec_entry_offset(
        volume.fat_type,
        cluster as int,
    );
    if o <= u64::MAX {
        Some(o as u64)
    } else {
        None
    }
}

/// Where the FAT entry of a cluster is read from: its byte offset in the active FAT copy.
pub fn fat_entry_offset(volume: &Volume, cluster: Cluster) -> (r: Option<u64>)
    ensures
        r == spec_fat_entry_offset(*volume, cluster.spec_get()),
{
    let start = fat_start(volume, volume.active_fat());
    fat_entry_position(volume.fat_type, start, cluster)
}

/// The next cluster named by a FAT entry: `Data` continues the chain inside the volume, an
/// end-of-chain marker ends it, and anything else is corruption.
pub open spec fn spec_next_from_entry(volume: Volume, entry: FatEntry) -> Result<Option<u32>, ()> {
    match entry {
        FatEntry::Data(next) => if next >= 2 && spec_cluster_in_volume(volume, next) {
            Ok(Some(next))
        } else {
            Err(())
        },
        FatEntry::EndOfChain => Ok(None),
        _ => Err(()),
    }
}

/// The cluster that follows in a chain, according to the FAT entry read for the current one.
pub fn next_from_entry<E>(volume: &Volume, entry: FatEntry) -> (r: Result<Option<Cluster>, Error<E>>)
    ensures
        match spec_next_from_entry(*volume, entry) {
            Ok(Some(n)) => r matches Ok(Some(c)) && c.spec_get() == n,
            Ok(None) => r matches Ok(None),
            Err(()) => r == Err::<Option<Cluster>, Error<E>>(Error::CorruptChain),
        },
{
    match entry {
        FatEntry::Data(next) => {
            let next = match Cluster::new(next) {
                Some(c) => c,
                None => return Err(Error::CorruptChain),
            };
            match validate_cluster(volume, next) {
                Ok(()) => Ok(Some(next)),
                Err(e) => Err(e),
            }
        },
        FatEntry::EndOfChain => Ok(None),
        _ => Err(Error::CorruptChain),
    }
}

/// Whether no cluster chain reaches `offset`: even with the largest clusters (65535-byte
/// sectors, 255 sectors per cluster) its cluster index does not fit in 32 bits.
pub open spec fn spec_offset_past_any_chain(offset: u64) -> bool {
    offset >= 0x0100_0000_0000_0000
}

/// Where a directory read of `out_len` bytes at `offset` in a cluster chain starts:
/// the index of the cluster, the offset inside it.
pub fn chain_position(offset: u64, cluster_size: usize) -> (r: Option<(u32, usize)>)
    requires
        cluster_size > 0,
    ensures
        spec_offset_past_any_chain(offset) && cluster_size <= 65535 * 255 ==> r is None,
        r matches Some((index, within)) ==> index == (offset as int) / (cluster_size as int)
            && within == (offset as int) % (cluster_size as int) && within < cluster_size,
        r is None ==> (offset as int) / (cluster_size as int) > u32::MAX,
{
    let cs = cluster_size as u64;
    let index = offset / cs;
    let within = (offset % cs) as usize;
    proof {
        if spec_offset_past_any_chain(offset) && cluster_size <= 65535 * 255 {
            assert(index > u32::MAX) by (nonlinear_arith)
                requires
                    offset >= 0x0100_0000_0000_0000,
                    0 < cs <= 65535 * 255,
                    index == offset / cs,
            {
                assert(0x1_0000_0000 * cs <= 0x1_0000_0000 * (65535 * 255));
                assert(0x1_0000_0000 * (65535 * 255) < 0x0100_0000_0000_0000);
                if index <= u32::MAX {
                    assert(index * cs <= u32::MAX * cs);
                    assert(offset < (index + 1) * cs);
                }
            }
        }
    }
    if index > u32::MAX as u64 {
        None
    } else {
        Some((index as u32, within))
    }
}

/// Provides FAT cluster-chain access.
pub trait ChainAccess: BlockAccess {
    /// Returns the mounted volume metadata.
    fn volume(&self) -> &Volume;

    /// Reads bytes at an absolute volume offset.
    fn read_volume_at(&mut self, byte_offset: u64, out: &mut [u8]) -> (r: Result<(), Error<Self::Error>>)
        ensures
            final(out)@.len() == old(out)@.len(),
            old(out)@.len() > 0 && byte_offset + old(out)@.len() > u64::MAX ==> r is Err,
            r matches Err(e) ==> (e is Io || e is OutOfBounds),
    {
        read_device_at(self, byte_offset, out)
    }

    /// Reads the FAT entry for a cluster.
    ///
    /// A cluster above the volume's highest cluster is `CorruptChain`; otherwise the entry is
    /// read from the active FAT copy and decoded.
    fn read_fat_entry(&mut self, cluster: Cluster) -> (r: Result<FatEntry, Error<Self::Error>>)
        ensures
            r matches Ok(e) ==> exists|t: FatType, b: Seq<u8>|
                b.len() == spec_entry_width(t) && #[trigger] FatEntry::spec_parse(t, cluster.spec_get(), b)
                    == Ok::<FatEntry, FormatError>(e),
            r matches Err(e) ==> (e is Io || e is OutOfBounds || e is CorruptChain),
    {
        let volume = *self.volume();
        if let Err(e) = validate_cluster::<Self::Error>(&volume, cluster) {
            return Err(e);
        }
        let offset = match fat_entry_offset(&volume, cluster) {
            Some(o) => o,
            None => return Err(Error::OutOfBounds),
        };
        match volume.fat_type {
            FatType::Fat12 => {
                let mut bytes = [0u8; 2];
                let buf: &mut [u8] = &mut bytes;
                if let Err(e) = self.read_volume_at(offset, buf) {
                    return Err(e);
                }
                match FatEntry::parse(FatType::Fat12, cluster.get(), &bytes) {
                    Ok(e) => {
                        assert(FatEntry::spec_parse(FatType::Fat12, cluster.spec_get(), bytes@) == Ok::<FatEntry, FormatError>(e));
                        Ok(e)
                    },
                    Err(e) => Err(Error::InvalidFormat(e)),
                }
            },
            FatType::Fat16 => {
                let mut bytes = [0u8; 2];
                let buf: &mut [u8] = &mut bytes;
                if let Err(e) = self.read_volume_at(offset, buf) {
                    return Err(e);
                }
                match FatEntry::parse(FatType::Fat16, cluster.get(), &bytes) {
                    Ok(e) => {
                        assert(FatEntry::spec_parse(FatType::Fat16, cluster.spec_get(), bytes@) == Ok::<FatEntry, FormatError>(e));
                        Ok(e)
                    },
                    Err(e) => Err(Error::InvalidFormat(e)),
                }
            },
            FatType::Fat32 => {
                let mut bytes = [0u8; 4];
                let buf: &mut [u8] = &mut bytes;
                if let Err(e) = self.read_volume_at(offset, buf) {
                    return Err(e);
                }
                match FatEntry::parse(FatType::Fat32, cluster.get(), &bytes) {
                    Ok(e) => {
                        assert(FatEntry::spec_parse(FatType::Fat32, cluster.spec_get(), bytes@) == Ok::<FatEntry, FormatError>(e));
                        Ok(e)
                    },
                    Err(e) => Err(Error::InvalidFormat(e)),
                }
            },
        }
    }

    /// Returns the next cluster, or `None` at the end of the chain.
    fn next_cluster(&mut self, cluster: Cluster) -> (r: Result<Option<Cluster>, Error<Self::Error>>)
        ensures
            r matches Err(e) ==> (e is Io || e is OutOfBounds || e is CorruptChain),
    {
        let entry = match self.read_fat_entry(cluster) {
            Ok(e) => e,
            Err(e) => return Err(e),
        };
        let volume = *self.volume();
        next_from_entry(&volume, entry)
    }

    /// Resolves the cluster at `index` in a chain.
    ///
    /// The default implementation walks the FAT chain from `first`; index 0 is `first` itself.
    fn cluster_at(&mut self, first: Cluster, index: u32) -> (r: Result<Option<Cluster>, Error<Self::Error>>)
        ensures
            index == 0 ==> (r == Ok::<Option<Cluster>, Error<Self::Error>>(Some(first)) || r == Err::<
                Option<Cluster>,
                Error<Self::Error>,
            >(Error::CorruptChain)),
            r matches Err(e) ==> (e is Io || e is OutOfBounds || e is CorruptChain),
    {
        let volume = *self.volume();
        if let Err(e) = validate_cluster::<Self::Error>(&volume, first) {
            return Err(e);
        }
        let mut cluster = first;
        let mut step: u32 = 0;
        while step < index
            invariant
                step <= index,
                index == 0 ==> cluster == first,
            decreases index - step,
        {
            let next = match self.next_cluster(cluster) {
                Ok(n) => n,
                Err(e) => return Err(e),
            };
            match next {
                None => return Ok(None),
                Some(n) => cluster = n,
            }
            step = step + 1;
        }
        Ok(Some(cluster))
    }

    /// Reads bytes at an offset within a cluster chain.
    ///
    /// Reading stops early at the end of the chain; the number of bytes read is returned.
    fn read_chain_at(&mut self, first: Cluster, offset: u64, out: &mut [u8]) -> (r: Result<usize, Error<Self::Error>>)
        ensures
            final(out)@.len() == old(out)@.len(),
            spec_offset_past_any_chain(offset) ==> r == Err::<usize, Error<Self::Error>>(
                Error::OutOfBounds,
            ),
            r matches Ok(n) ==> n <= old(out)@.len(),
            r matches Err(e) ==> (e is Io || e is OutOfBounds || e is CorruptChain),
    {
        let volume = *self.volume();
        let cluster_size = volume.cluster_size();
        if cluster_size == 0 {
            return Err(Error::OutOfBounds);
        }
        let (cluster_index, within) = match chain_position(offset, cluster_size) {
            Some(p) => p,
            None => return Err(Error::OutOfBounds),
        };
        let mut within_cluster = within;
        let found = match self.cluster_at(first, cluster_index) {
            Ok(c) => c,
            Err(e) => return Err(e),
        };
        let mut cluster = match found {
            Some(c) => c,
            None => return Ok(0),
        };
        let n = out.len();
        let mut read: usize = 0;
        while read < n
            invariant
                read <= n,
                n == old(out)@.len(),
                out@.len() == n,
                within_cluster < cluster_size,
                !spec_offset_past_any_chain(offset),
            decreases n - read,
        {
            let available = cluster_size - within_cluster;
            let length = if available < n - read { available } else { n - read };
            let base = match volume.cluster_byte_offset(cluster) {
                Some(b) => b,
                None => return Err(Error::CorruptChain),
            };
            let byte_offset = match base.checked_add(within_cluster as u64) {
                Some(o) => o,
                None => return Err(Error::OutOfBounds),
            };
            let result = {
                let (_, rest) = out.split_at_mut(read);
                let (part, _) = rest.split_at_mut(length);
                self.read_volume_at(byte_offset, part)
            };
            if let Err(e) = result {
                return Err(e);
            }
            read = read + length;
            within_cluster = 0;
            if read < n {
                let next = match self.next_cluster(cluster) {
                    Ok(c) => c,
                    Err(e) => return Err(e),
                };
                match next {
                    None => break,
                    Some(c) => cluster = c,
                }
            }
        }
        Ok(read)
    }
}

// ---------------------------------------------------------------------------
// Directories
// ---------------------------------------------------------------------------

/// A directory entry together with its on-disk location.
#[derive(Clone, Copy, Debug, PartialEq, Eq)]
pub struct FoundEntry {
    /// Raw short directory entry.
    pub raw: RawDirEntry,
    /// Location of the short directory entry.
    pub location: DirectoryEntryLocation,
    /// Index of the first associated long-name entry, if any.
    pub lfn_start_index: Option<u32>,
}

/// A visible directory entry returned during directory enumeration.
#[derive(Clone, Copy, Debug, PartialEq, Eq)]
pub struct DirectoryEntry {
    /// Raw short directory entry.
    pub raw: RawDirEntry,
    /// Location of the short directory entry.
    pub location: DirectoryEntryLocation,
    /// Index of the first associated long-name entry, if the name buffer contains an LFN.
    pub lfn_start_index: Option<u32>,
    /// Number of UTF-16 code units written to the caller-provided name buffer.
    pub name_length: usize,
}

/// A short entry that is visible: not the end marker, not deleted, not a long-name entry and
/// not a volume label.
pub open spec fn spec_visible_short(raw: RawDirEntry) -> bool {
    &&& !raw.spec_is_end()
    &&& !raw.spec_is_deleted()
    &&& !raw.spec_is_lfn()
    &&& !raw.spec_is_volume_label()
}

/// The state of a long-name sequence being assembled while a directory is scanned.
#[derive(Clone, Copy, Debug)]
pub struct LfnSequence {
    /// Whether a sequence is being assembled.
    pub active: bool,
    /// The ordinal the next entry of the sequence must carry.
    pub expected_ordinal: u8,
    /// The short-name checksum every entry of the sequence carries.
    pub checksum: u8,
    /// Index of the sequence's first (last-flagged) entry.
    pub start_index: u32,
    /// Number of code units of the name assembled so far, up to its terminator.
    pub name_length: usize,
}

/// Index of the first terminator (0x0000 or 0xffff) among the first `k` code units, or 13.
pub open spec fn spec_terminator_in_prefix(chars: Seq<u16>, k: int) -> int
    decreases k,
{
    if k <= 0 {
        13
    } else if spec_terminator_in_prefix(chars, k - 1) < 13 {
        spec_terminator_in_prefix(chars, k - 1)
    } else if chars[k - 1] == 0 || chars[k - 1] == 0xffff {
        k - 1
    } else {
        13
    }
}

/// Index of the first terminator (0x0000 or 0xffff) among the 13 code units, or 13.
pub open spec fn spec_first_terminator(chars: Seq<u16>) -> int {
    spec_terminator_in_prefix(chars, 13)
}

proof fn lemma_terminator_in_prefix_range(chars: Seq<u16>, k: int)
    requires
        0 <= k <= 13,
    ensures
        spec_terminator_in_prefix(chars, k) == 13 || 0 <= spec_terminator_in_prefix(chars, k) < k,
    decreases k,
{
    if k > 0 {
        lemma_terminator_in_prefix_range(chars, k - 1);
    }
}

impl LfnSequence {
    pub open spec fn spec_empty() -> LfnSequence {
        LfnSequence { active: false, expected_ordinal: 0, checksum: 0, start_index: 0, name_length: 0 }
    }

    /// The sequence after the entry's "last" flag, if set, starts a new sequence.
    pub open spec fn spec_begin(self, entry: LfnEntry, index: u32) -> LfnSequence {
        if entry.is_last {
            LfnSequence {
                active: true,
                expected_ordinal: entry.ordinal,
                checksum: entry.checksum,
                start_index: index,
                name_length: (entry.ordinal * 13) as usize,
            }
        } else {
            self
        }
    }

    /// Whether the entry continues the sequence: it has the expected ordinal and checksum.
    pub open spec fn spec_continues(self, entry: LfnEntry) -> bool {
        self.active && entry.ordinal == self.expected_ordinal && entry.checksum == self.checksum
    }

    /// The sequence after an entry that continues it.
    pub open spec fn spec_after(self, entry: LfnEntry) -> LfnSequence {
        let start = (entry.ordinal - 1) * 13;
        let term = spec_first_terminator(entry.characters@);
        LfnSequence {
            expected_ordinal: (self.expected_ordinal - 1) as u8,
            name_length: if term < 13 && start + term < self.name_length {
                (start + term) as usize
            } else {
                self.name_length
            },
            ..self
        }
    }

    /// The name buffer after an entry that continues a sequence stores its code units.
    pub open spec fn spec_stored(name: Seq<u16>, entry: LfnEntry) -> Seq<u16> {
        let start = (entry.ordinal - 1) * 13;
        Seq::new(
            name.len(),
            |i: int|
                if start <= i < start + 13 {
                    entry.characters@[i - start]
                } else {
                    name[i]
                },
        )
    }

    /// An empty sequence.
    pub fn new() -> (r: Self)
        ensures
            r == LfnSequence::spec_empty(),
    {
        LfnSequence { active: false, expected_ordinal: 0, checksum: 0, start_index: 0, name_length: 0 }
    }

    /// Drops the sequence being assembled.
    pub fn reset(&mut self)
        ensures
            *final(self) == LfnSequence::spec_empty(),
    {
        *self = LfnSequence::new();
    }

    /// Adds one long-name entry found at `index`, storing its characters in `name`.
    pub fn push(&mut self, entry: LfnEntry, index: u32, name: &mut [u16])
        requires
            1 <= entry.ordinal <= 20,
        ensures
            ({
                let s1 = old(self).spec_begin(entry, index);
                if s1.spec_continues(entry) {
                    &&& *final(self) == s1.spec_after(entry)
                    &&& final(name)@ == LfnSequence::spec_stored(old(name)@, entry)
                } else {
                    &&& *final(self) == LfnSequence::spec_empty()
                    &&& final(name)@ == old(name)@
                }
            }),
    {
        if entry.is_last {
            self.active = true;
            self.expected_ordinal = entry.ordinal;
            self.checksum = entry.checksum;
            self.start_index = index;
            self.name_length = entry.ordinal as usize * 13;
        }
        if !self.active || entry.ordinal != self.expected_ordinal || entry.checksum != self.checksum {
            self.reset();
            return;
        }
        let ghost s1 = *self;
        let start = (entry.ordinal as usize - 1) * 13;
        let ghost old_name = name@;
        let mut k: usize = 0;
        while k < 13
            invariant
                k <= 13,
                start == (entry.ordinal - 1) * 13,
                name@.len() == old_name.len(),
                forall|i: int|
                    0 <= i < name@.len() ==> #[trigger] name@[i] == if start <= i < start + k {
                        entry.characters@[i - start]
                    } else {
                        old_name[i]
                    },
                self.active == s1.active,
                self.expected_ordinal == s1.expected_ordinal,
                self.checksum == s1.checksum,
                self.start_index == s1.start_index,
                self.name_length == if spec_terminator_in_prefix(entry.characters@, k as int) < 13
                    && start + spec_terminator_in_prefix(entry.characters@, k as int) < s1.name_length {
                    (start + spec_terminator_in_prefix(entry.characters@, k as int)) as usize
                } else {
                    s1.name_length
                },
            decreases 13 - k,
        {
            let character = entry.characters[k];
            let position = start + k;
            proof {
                lemma_terminator_in_prefix_range(entry.characters@, k as int);
            }
            if character == 0 || character == 0xffff {
                if position < self.name_length {
                    self.name_length = position;
                }
            }
            if position < name.len() {
                name[position] = character;
            }
            k = k + 1;
        }
        assert(name@ == LfnSequence::spec_stored(old_name, entry));
        self.expected_ordinal = self.expected_ordinal - 1;
    }

    /// What `finish` returns for a short name: the first index and length of a complete,
    /// matching long name.
    pub open spec fn spec_finish(self, short_name: ShortName) -> Option<(u32, usize)> {
        if self.active && self.expected_ordinal == 0 && self.name_length != 0
            && spec_checksum(short_name.0@) == self.checksum {
            Some((self.start_index, self.name_length))
        } else {
            None
        }
    }

    /// Ends the sequence at a short entry; returns the long name if it belongs to that entry.
    pub fn finish(&mut self, short_name: ShortName) -> (r: Option<(u32, usize)>)
        ensures
            r == old(self).spec_finish(short_name),
            *final(self) == LfnSequence::spec_empty(),
    {
        let result = if self.active && self.expected_ordinal == 0 && self.name_length != 0
            && short_name.checksum() == self.checksum {
            Some((self.start_index, self.name_length))
        } else {
            None
        };
        self.reset();
        result
    }
}

/// Whether the UTF-16 code units in `buffer` are exactly the UTF-16 encoding of `name`.
fn long_name_matches(buffer: &[u16], name: &str) -> (r: bool)
    ensures
        r == (buffer@ == spec_utf16(name@)),
{
    let n = buffer.len();
    let mut position: usize = 0;
    for c in it: name.chars()
        invariant
            it.seq() == name@,
            n == buffer@.len(),
            position == spec_utf16(it.seq().take(it.index() as int)).len(),
            position <= n,
            buffer@.subrange(0, position as int) == spec_utf16(it.seq().take(it.index() as int)),
    {
        proof {
            lemma_utf16_take(it.seq(), it.index() as int);
            crate::name::lemma_utf16_take_len(name@, it.index() + 1);
        }
        let (first, second) = utf16_char(c);
        let ghost pre = spec_utf16(it.seq().take(it.index() + 1));
        proof {
            assert(c == it.seq()[it.index() as int]);
            assert(pre[position as int] == first);
            crate::name::lemma_utf16_prefix(name@, it.index() + 1);
        }
        if position >= n || buffer[position] != first {
            proof {
                if buffer@ == spec_utf16(name@) {
                    assert(spec_utf16(name@)[position as int] == pre[position as int]);
                }
            }
            return false;
        }
        match second {
            None => {
                position = position + 1;
            },
            Some(unit) => {
                assert(pre[position + 1] == unit);
                if position + 1 >= n || buffer[position + 1] != unit {
                    proof {
                        if buffer@ == spec_utf16(name@) {
                            assert(spec_utf16(name@)[position + 1] == pre[position + 1]);
                        }
                    }
                    return false;
                }
                position = position + 2;
            },
        }
        assert(buffer@.subrange(0, position as int) == spec_utf16(it.seq().take(it.index() + 1)));
    }
    assert(name@.take(name@.len() as int) == name@);
    if position == n {
        assert(buffer@ == buffer@.subrange(0, n as int));
        true
    } else {
        false
    }
}

/// Position just after the last byte of `raw[lo..hi]` that is not a space, relative to `lo`.
pub open spec fn spec_trimmed_length(raw: Seq<u8>, lo: int, hi: int) -> int
    decreases hi - lo,
{
    if hi <= lo {
        0
    } else if raw[hi - 1] != 0x20 {
        hi - lo
    } else {
        spec_trimmed_length(raw, lo, hi - 1)
    }
}

/// A short-name byte widened to UTF-16, lower-cased when the flag asks for it.
pub open spec fn spec_short_name_code_unit(byte: u8, lowercase: bool) -> u16 {
    if lowercase && 0x41 <= byte <= 0x5a {
        (byte + 32) as u16
    } else {
        byte as u16
    }
}

/// The display name of a short entry: base, then a dot and the extension if there is one,
/// with the lower-case flags of byte 12 applied and a leading 0x05 shown as 0xe5.
pub open spec fn spec_short_display_name(raw: Seq<u8>) -> Seq<u16> {
    let base_length = spec_trimmed_length(raw, 0, 8);
    let extension_length = spec_trimmed_length(raw, 8, 11);
    let lowercase_base = raw[12] & 0x08 != 0;
    let lowercase_extension = raw[12] & 0x10 != 0;
    let base = Seq::new(
        base_length as nat,
        |i: int|
            spec_short_name_code_unit(
                if i == 0 && raw[0] == 0x05 {
                    0xe5u8
                } else {
                    raw[i]
                },
                lowercase_base,
            ),
    );
    let extension = Seq::new(
        extension_length as nat,
        |i: int| spec_short_name_code_unit(raw[8 + i], lowercase_extension),
    );
    if extension_length == 0 {
        base
    } else {
        base + seq![0x2eu16] + extension
    }
}

fn short_name_code_unit(byte: u8, lowercase: bool) -> (r: u16)
    ensures
        r == spec_short_name_code_unit(byte, lowercase),
{
    if lowercase && 0x41 <= byte && byte <= 0x5a {
        (byte + 32) as u16
    } else {
        byte as u16
    }
}

/// Length of `raw[lo..hi]` up to its last non-space byte.
fn trimmed_length(raw: &[u8], lo: usize, hi: usize) -> (r: usize)
    requires
        lo <= hi <= raw@.len(),
    ensures
        r == spec_trimmed_length(raw@, lo as int, hi as int),
        r <= hi - lo,
{
    let mut end = hi;
    while end > lo
        invariant
            lo <= end <= hi <= raw@.len(),
            spec_trimmed_length(raw@, lo as int, hi as int) == spec_trimmed_length(raw@, lo as int, end as int),
        decreases end - lo,
    {
        if raw[end - 1] != 0x20 {
            return end - lo;
        }
        end = end - 1;
    }
    0
}

/// Writes the display name of a short entry to `out` and returns its length.
fn write_short_name<E>(raw: &RawDirEntry, out: &mut [u16]) -> (r: Result<usize, Error<E>>)
    ensures
        final(out)@.len() == old(out)@.len(),
        spec_short_display_name(raw.0@).len() <= 12,
        spec_short_display_name(raw.0@).len() > old(out)@.len() ==> r == Err::<usize, Error<E>>(
            Error::NameBufferTooSmall,
        ) && final(out)@ == old(out)@,
        spec_short_display_name(raw.0@).len() <= old(out)@.len() ==> r == Ok::<usize, Error<E>>(
            spec_short_display_name(raw.0@).len() as usize,
        ) && final(out)@.subrange(0, spec_short_display_name(raw.0@).len() as int)
            == spec_short_display_name(raw.0@) && final(out)@.subrange(
            spec_short_display_name(raw.0@).len() as int,
            old(out)@.len() as int,
        ) == old(out)@.subrange(spec_short_display_name(raw.0@).len() as int, old(out)@.len() as int),
{
    let bytes: &[u8] = &raw.0;
    let base_length = trimmed_length(bytes, 0, 8);
    let extension_length = trimmed_length(bytes, 8, 11);
    let length = base_length + if extension_length != 0 { 1 } else { 0 } + extension_length;
    let ghost display = spec_short_display_name(raw.0@);
    assert(display.len() == length);
    if length > out.len() {
        return Err(Error::NameBufferTooSmall);
    }
    let ghost old_out = out@;
    let lowercase_base = raw.0[12] & 0x08 != 0;
    let lowercase_extension = raw.0[12] & 0x10 != 0;
    let mut i: usize = 0;
    while i < base_length
        invariant
            i <= base_length <= 8,
            base_length <= length <= out@.len(),
            out@.len() == old_out.len(),
            display == spec_short_display_name(raw.0@),
            base_length == spec_trimmed_length(raw.0@, 0, 8),
            lowercase_base == (raw.0@[12] & 0x08 != 0),
            forall|j: int| 0 <= j < i ==> #[trigger] out@[j] == display[j],
            forall|j: int| i <= j < out@.len() ==> #[trigger] out@[j] == old_out[j],
        decreases base_length - i,
    {
        let byte = if i == 0 && raw.0[0] == 0x05 {
            0xe5u8
        } else {
            raw.0[i]
        };
        out[i] = short_name_code_unit(byte, lowercase_base);
        i = i + 1;
    }
    if extension_length != 0 {
        out[base_length] = 0x2e;
        let mut k: usize = 0;
        while k < extension_length
            invariant
                k <= extension_length <= 3,
                base_length <= 8,
                length == base_length + 1 + extension_length,
                length <= out@.len(),
                out@.len() == old_out.len(),
                display == spec_short_display_name(raw.0@),
                base_length == spec_trimmed_length(raw.0@, 0, 8),
                extension_length == spec_trimmed_length(raw.0@, 8, 11),
                lowercase_extension == (raw.0@[12] & 0x10 != 0),
                forall|j: int| 0 <= j < base_length + 1 + k ==> #[trigger] out@[j] == display[j],
                forall|j: int| base_length + 1 + k <= j < out@.len() ==> #[trigger] out@[j] == old_out[j],
            decreases extension_length - k,
        {
            out[base_length + 1 + k] = short_name_code_unit(raw.0[8 + k], lowercase_extension);
            k = k + 1;
        }
    }
    assert(out@.subrange(0, length as int) == display);
    assert(out@.subrange(length as int, old_out.len() as int) == old_out.subrange(length as int, old_out.len() as int));
    Ok(length)
}

/// `spec_trimmed_length(raw, lo, hi)` counts `raw[lo..hi]` up to its last non-space byte: the
/// bytes after that point are spaces and the byte just before it is not.
pub proof fn lemma_trimmed_length(raw: Seq<u8>, lo: int, hi: int)
    requires
        0 <= lo <= hi <= raw.len(),
    ensures
        0 <= spec_trimmed_length(raw, lo, hi) <= hi - lo,
        forall|i: int| lo + spec_trimmed_length(raw, lo, hi) <= i < hi ==> raw[i] == 0x20,
        spec_trimmed_length(raw, lo, hi) > 0 ==> raw[lo + spec_trimmed_length(raw, lo, hi) - 1]
            != 0x20,
    decreases hi - lo,
{
    if hi > lo && raw[hi - 1] == 0x20 {
        lemma_trimmed_length(raw, lo, hi - 1);
    }
}

/// The display name of a short entry: its base up to the last non-space byte, then, when the
/// extension is not all spaces, a dot and the extension up to its last non-space byte, so a
/// base of `b` and an extension of `e > 0` bytes give a name of `b + 1 + e` units with the dot
/// at `b`. Each letter is lower-cased when its part's flag in byte 12 asks for it, and a
/// leading 0x05 is shown as 0xe5.
pub proof fn lemma_short_display_name_layout(raw: Seq<u8>)
    requires
        raw.len() == 32,
    ensures
        ({
            let d = spec_short_display_name(raw);
            let b = spec_trimmed_length(raw, 0, 8);
            let e = spec_trimmed_length(raw, 8, 11);
            let lower_base = raw[12] & 0x08 != 0;
            let lower_extension = raw[12] & 0x10 != 0;
            &&& 0 <= b <= 8 && 0 <= e <= 3
            &&& forall|i: int| b <= i < 8 ==> raw[i] == 0x20
            &&& b > 0 ==> raw[b - 1] != 0x20
            &&& forall|i: int| 8 + e <= i < 11 ==> raw[i] == 0x20
            &&& e > 0 ==> raw[8 + e - 1] != 0x20
            &&& e == 0 ==> d.len() == b
            &&& e > 0 ==> d.len() == b + 1 + e && d[b] == 0x2e
            &&& forall|i: int|
                0 <= i < b ==> #[trigger] d[i] == (if lower_base {
                    crate::format::spec_ascii_lower(
                        if i == 0 && raw[0] == 0x05 {
                            0xe5u8
                        } else {
                            raw[i]
                        },
                    )
                } else if i == 0 && raw[0] == 0x05 {
                    0xe5u8
                } else {
                    raw[i]
                }) as u16
            &&& forall|k: int|
                0 <= k < e ==> #[trigger] d[b + 1 + k] == (if lower_extension {
                    crate::format::spec_ascii_lower(raw[8 + k])
                } else {
                    raw[8 + k]
                }) as u16
        }),
{
    lemma_trimmed_length(raw, 0, 8);
    lemma_trimmed_length(raw, 8, 11);
}

/// The first cluster recorded in a short entry, as the volume's FAT type reads it.
pub open spec fn spec_entry_first_cluster(volume: Volume, entry: RawDirEntry) -> u32 {
    match volume.fat_type {
        FatType::Fat32 => (entry.spec_first_cluster() % 0x1000_0000) as u32,
        _ => crate::format::spec_le16(entry.0@, 26) as u32,
    }
}

pub fn entry_first_cluster(volume: &Volume, entry: &RawDirEntry) -> (r: u32)
    ensures
        r == spec_entry_first_cluster(*volume, *entry),
{
    match volume.fat_type {
        FatType::Fat12 | FatType::Fat16 => entry.first_cluster_low() as u32,
        FatType::Fat32 => entry.first_cluster() % 0x1000_0000,
    }
}

/// Whether a short name is `..` with an empty extension.
pub open spec fn spec_is_dot_dot(short: Seq<u8>) -> bool {
    spec_short_name_matches(short, seq![0x2eu8, 0x2eu8])
}

/// Where the directory described by a short entry is stored: its first cluster, or the root
/// directory for a `..` entry with cluster 0.
pub open spec fn spec_directory_location(volume: Volume, entry: RawDirEntry) -> Option<DirectoryLocation> {
    let raw_cluster = spec_entry_first_cluster(volume, entry);
    if raw_cluster == 0 {
        if spec_is_dot_dot(entry.0@.subrange(0, 11)) && !(volume.fat_type == FatType::Fat32
            && volume.bpb.root_cluster < 2) {
            Some(volume.spec_root_directory())
        } else {
            None
        }
    } else if raw_cluster >= 2 {
        Some(DirectoryLocation::Cluster(Cluster::spec_from(raw_cluster)))
    } else {
        None
    }
}

/// The root directory's location; a FAT32 volume whose root cluster is below 2 has no valid root
/// cluster and is reported as `CorruptChain` by the callers.
fn root_location<E>(volume: &Volume) -> (r: Result<DirectoryLocation, Error<E>>)
    ensures
        !(volume.fat_type == FatType::Fat32 && volume.bpb.root_cluster < 2) ==> r == Ok::<
            DirectoryLocation,
            Error<E>,
        >(volume.spec_root_directory()),
        (volume.fat_type == FatType::Fat32 && volume.bpb.root_cluster < 2) ==> r == Err::<
            DirectoryLocation,
            Error<E>,
        >(Error::CorruptChain),
{
    if volume.fat_type == FatType::Fat32 && volume.bpb.root_cluster < 2 {
        Err(Error::CorruptChain)
    } else {
        Ok(volume.root_directory())
    }
}

pub fn directory_location<E>(volume: &Volume, entry: &RawDirEntry) -> (r: Result<DirectoryLocation, Error<E>>)
    ensures
        match spec_directory_location(*volume, *entry) {
            Some(l) => r == Ok::<DirectoryLocation, Error<E>>(l),
            None => r == Err::<DirectoryLocation, Error<E>>(Error::CorruptChain),
        },
{
    let raw_cluster = entry_first_cluster(volume, entry);
    if raw_cluster == 0 {
        let short = entry.short_name();
        let dot_dot: [u8; 2] = [0x2e, 0x2e];
        assert(dot_dot@ == seq![0x2eu8, 0x2eu8]);
        if short.matches_bytes(&dot_dot) {
            root_location(volume)
        } else {
            Err(Error::CorruptChain)
        }
    } else {
        match Cluster::new(raw_cluster) {
            Some(c) => Ok(DirectoryLocation::Cluster(c)),
            None => Err(Error::CorruptChain),
        }
    }
}

/// Whether a name component is acceptable to `find_entry`: not empty and without `/`.
pub open spec fn spec_valid_component(name: Seq<u8>) -> bool {
    name.len() != 0 && !spec_contains(name, 0x2f)
}

/// What can be said of a found entry without the directory's contents: it is a visible short
/// entry, and its short name matches the component unless a long name belongs to it. (When a
/// long name belongs to it, that long name was compared with the component as read from the
/// device; `lookup_accepts` states that comparison exactly.)
#[verifier::opaque]
pub open spec fn spec_short_match_unless_long_named(f: FoundEntry, name: Seq<u8>) -> bool {
    &&& spec_visible_short(f.raw)
    &&& (spec_short_name_matches(f.raw.0@.subrange(0, 11), name) || f.lfn_start_index is Some)
}

/// Whether a lookup of `name` accepts a short entry: it is not a volume label, and either the
/// complete long name that belongs to it (if any) is exactly the UTF-16 encoding of `name`, or
/// its short name matches `name` ignoring ASCII case.
pub open spec fn spec_lookup_accepts(
    raw: RawDirEntry,
    long_name: Option<Seq<u16>>,
    name: Seq<char>,
    name_bytes: Seq<u8>,
) -> bool {
    &&& !raw.spec_is_volume_label()
    &&& ((long_name matches Some(text) && text == spec_utf16(name)) || spec_short_name_matches(
        raw.0@.subrange(0, 11),
        name_bytes,
    ))
}

/// Decides whether a lookup of `name` accepts a short entry read from a directory, given the
/// long name that was assembled for it.
pub fn lookup_accepts(raw: &RawDirEntry, long_name: Option<&[u16]>, name: &str) -> (r: bool)
    ensures
        r == spec_lookup_accepts(
            *raw,
            match long_name {
                Some(text) => Some(text@),
                None => None,
            },
            name@,
            name.spec_bytes(),
        ),
{
    if raw.is_volume_label() {
        return false;
    }
    let long_matches = match long_name {
        Some(text) => long_name_matches(text, name),
        None => false,
    };
    long_matches || raw.short_name().matches(name)
}

/// Where `root_directory` places the root of a volume: its root location, or the fixed root
/// for a FAT32 volume without a valid root cluster.
pub open spec fn spec_root_handle_location(v: Volume) -> DirectoryLocation {
    if v.fat_type == FatType::Fat32 && v.bpb.root_cluster < 2 {
        DirectoryLocation::FixedRoot
    } else {
        v.spec_root_directory()
    }
}

/// Provides directory traversal and lookup.
pub trait DirectoryAccess: ChainAccess {
    /// Application-owned directory handle type.
    type DirectoryHandle: DirectoryHandle + From<DirectoryInfo>;

    /// Returns a handle for the root directory.
    ///
    /// A FAT32 volume whose root cluster is below 2 has no valid root cluster; the fixed-root
    /// location is used for it.
    fn root_directory(&self) -> (r: Self::DirectoryHandle)
        ensures
            <Self::DirectoryHandle as FromSpec<DirectoryInfo>>::obeys_from_spec() ==> exists|v: Volume|
                r == #[trigger] <Self::DirectoryHandle as FromSpec<DirectoryInfo>>::from_spec(
                    DirectoryInfo { location: spec_root_handle_location(v) },
                ),
    {
        let volume = *self.volume();
        let location = match root_location::<Self::Error>(&volume) {
            Ok(l) => l,
            Err(_) => DirectoryLocation::FixedRoot,
        };
        let r: Self::DirectoryHandle = DirectoryInfo { location }.into();
        proof {
            assert(location == spec_root_handle_location(volume));
            if <Self::DirectoryHandle as FromSpec<DirectoryInfo>>::obeys_from_spec() {
                assert(r == <Self::DirectoryHandle as FromSpec<DirectoryInfo>>::from_spec(
                    DirectoryInfo { location: spec_root_handle_location(volume) },
                ));
            }
        }
        r
    }

    /// Reads bytes at an offset within a directory.
    ///
    /// The fixed root directory ends after its sectors; a cluster-chain directory ends with its
    /// chain. The number of bytes read is returned.
    fn read_directory_at(&mut self, directory: &Self::DirectoryHandle, offset: u64, out: &mut [u8]) -> (r: Result<usize, Error<Self::Error>>)
        ensures
            final(out)@.len() == old(out)@.len(),
            r matches Ok(n) ==> n <= old(out)@.len(),
            r matches Err(e) ==> (e is Io || e is OutOfBounds || e is CorruptChain),
    {
        match directory.directory_info().location {
            DirectoryLocation::FixedRoot => {
                let volume = *self.volume();
                assert(volume.root_directory_sectors * volume.bpb.bytes_per_sector <= 0xffff_ffff * 0xffff) by (nonlinear_arith)
                    requires volume.root_directory_sectors <= 0xffff_ffff, volume.bpb.bytes_per_sector <= 0xffff;
                let length = volume.root_directory_sectors as u64 * volume.sector_size() as u64;
                if offset >= length {
                    return Ok(0);
                }
                let available = length - offset;
                let read: usize = if (out.len() as u64) < available {
                    out.len()
                } else {
                    available as usize
                };
                let start = match volume.sector_byte_offset(volume.root_directory_start_sector).checked_add(offset) {
                    Some(s) => s,
                    None => return Err(Error::OutOfBounds),
                };
                let result = {
                    let (part, _) = out.split_at_mut(read);
                    self.read_volume_at(start, part)
                };
                match result {
                    Ok(()) => Ok(read),
                    Err(e) => Err(e),
                }
            },
            DirectoryLocation::Cluster(first) => self.read_chain_at(first, offset, out),
        }
    }

    /// Reads a directory entry by index.
    ///
    /// `None` is returned past the end of the directory and at the end-of-directory marker.
    fn read_directory_entry(&mut self, directory: &Self::DirectoryHandle, index: u32) -> (r: Result<Option<RawDirEntry>, Error<Self::Error>>)
        ensures
            r matches Ok(Some(e)) ==> !e.spec_is_end(),
            r matches Err(e) ==> (e is Io || e is OutOfBounds || e is CorruptChain),
    {
        let mut bytes = [0u8; DIRECTORY_ENTRY_SIZE];
        let offset = index as u64 * 32;
        let read = {
            let buf: &mut [u8] = &mut bytes;
            match self.read_directory_at(directory, offset, buf) {
                Ok(n) => n,
                Err(e) => return Err(e),
            }
        };
        if read != DIRECTORY_ENTRY_SIZE {
            return Ok(None);
        }
        let entry = RawDirEntry(bytes);
        if entry.is_end() {
            Ok(None)
        } else {
            Ok(Some(entry))
        }
    }

    /// Reads the next visible entry and its display name from a directory.
    ///
    /// `cursor` is the raw entry index at which scanning starts and is updated to the entry after
    /// the returned short entry. Deleted entries, volume labels, and LFN entries are not returned.
    /// A structurally invalid LFN sequence falls back to the associated short name. If `name` is
    /// too small, the cursor is left unchanged. Short-name bytes are widened to UTF-16, with the
    /// ASCII lowercase flags applied.
    fn read_next_directory_entry(&mut self, directory: &Self::DirectoryHandle, cursor: &mut u32, name: &mut [u16]) -> (r: Result<Option<DirectoryEntry>, Error<Self::Error>>)
        ensures
            final(name)@.len() == old(name)@.len(),
            r matches Ok(Some(d)) ==> {
                &&& spec_visible_short(d.raw)
                &&& *old(cursor) <= d.location.index
                &&& *final(cursor) == d.location.index + 1
                &&& d.name_length <= old(name)@.len()
                &&& d.lfn_start_index is None ==> final(name)@.subrange(0, d.name_length as int)
                    == spec_short_display_name(d.raw.0@)
            },
            r matches Ok(None) ==> *old(cursor) <= *final(cursor),
            r matches Err(e) ==> *final(cursor) == *old(cursor) && (e is Io || e is OutOfBounds
                || e is CorruptChain || e is NameBufferTooSmall),
    {
        let mut index = *cursor;
        let mut lfn = LfnSequence::new();
        let ghost name_len = name@.len();
        loop
            invariant
                *old(cursor) <= index,
                *cursor == *old(cursor),
                name@.len() == name_len,
                name_len == old(name)@.len(),
            decreases u32::MAX - index,
        {
            let found = match self.read_directory_entry(directory, index) {
                Ok(f) => f,
                Err(e) => return Err(e),
            };
            let raw = match found {
                Some(raw) => raw,
                None => {
                    *cursor = index;
                    return Ok(None);
                },
            };
            let next_index = match index.checked_add(1) {
                Some(i) => i,
                None => return Err(Error::OutOfBounds),
            };
            if raw.is_deleted() {
                lfn.reset();
                index = next_index;
                continue;
            }
            if raw.is_lfn() {
                match LfnEntry::parse(raw) {
                    Ok(entry) => lfn.push(entry, index, name),
                    Err(_) => lfn.reset(),
                }
                index = next_index;
                continue;
            }
            let long_name = lfn.finish(raw.short_name());
            if raw.is_volume_label() {
                index = next_index;
                continue;
            }
            let (lfn_start_index, name_length) = match long_name {
                Some((start, length)) => {
                    if length > name.len() {
                        return Err(Error::NameBufferTooSmall);
                    }
                    (Some(start), length)
                },
                None => {
                    match write_short_name::<Self::Error>(&raw, name) {
                        Ok(length) => {
                            assert(spec_short_display_name(raw.0@).len() <= name@.len());
                            assert(length == spec_short_display_name(raw.0@).len());
                            assert(name@.subrange(0, length as int) == spec_short_display_name(raw.0@));
                            (None, length)
                        },
                        Err(e) => return Err(e),
                    }
                },
            };
            *cursor = next_index;
            return Ok(
                Some(
                    DirectoryEntry {
                        raw,
                        location: DirectoryEntryLocation {
                            directory: directory.directory_info().location,
                            index,
                        },
                        lfn_start_index,
                        name_length,
                    },
                ),
            );
        }
    }

    /// Finds a named entry directly inside a directory.
    ///
    /// A name that is empty or contains `/` is `InvalidPath`. Otherwise the directory is scanned
    /// in order; the first visible short entry whose complete long name equals the name as UTF-16,
    /// or whose short name matches it ignoring ASCII case, is returned. The end of the directory
    /// gives `NotFound`.
    fn find_entry(&mut self, directory: &Self::DirectoryHandle, name: &str) -> (r: Result<FoundEntry, Error<Self::Error>>)
        ensures
            !spec_valid_component(name.spec_bytes()) ==> r == Err::<FoundEntry, Error<Self::Error>>(
                Error::InvalidPath,
            ),
            r matches Ok(f) ==> spec_short_match_unless_long_named(f, name.spec_bytes()),
            r matches Err(e) ==> (e is Io || e is OutOfBounds || e is CorruptChain || e is NotFound
                || e is InvalidPath),
    {
        let name_bytes = name.as_bytes();
        if name_bytes.len() == 0 {
            return Err(Error::InvalidPath);
        }
        if let Some(_) = crate::format::first_index_of(name_bytes, 0, name_bytes.len(), 0x2f) {
            return Err(Error::InvalidPath);
        }
        proof {
            if spec_contains(name.spec_bytes(), 0x2f) {
                let j = choose|j: int| 0 <= j < name.spec_bytes().len() && name.spec_bytes()[j] == 0x2f;
                assert(name_bytes@[j] == 0x2f);
            }
        }
        let mut byte_offset: u64 = 0;
        let mut batch = [0u8; 512];
        let mut long_name = [0xffffu16; 260];
        let mut lfn = LfnSequence::new();
        loop
            invariant
                spec_valid_component(name.spec_bytes()),
                name_bytes@ == name.spec_bytes(),
                batch@.len() == 512,
                long_name@.len() == 260,
            decreases u64::MAX - byte_offset,
        {
            let read = {
                let buf: &mut [u8] = &mut batch;
                match self.read_directory_at(directory, byte_offset, buf) {
                    Ok(n) => n,
                    Err(e) => return Err(e),
                }
            };
            if read == 0 {
                return Err(Error::NotFound);
            }
            let count = read / DIRECTORY_ENTRY_SIZE;
            let mut k: usize = 0;
            while k < count
                invariant
                    k <= count,
                    count * 32 <= read <= 512,
                    batch@.len() == 512,
                    long_name@.len() == 260,
                    spec_valid_component(name.spec_bytes()),
                    name_bytes@ == name.spec_bytes(),
                decreases count - k,
            {
                let entry_index = match u32_from(byte_offset / DIRECTORY_ENTRY_SIZE as u64 + k as u64) {
                    Some(i) => i,
                    None => return Err(Error::OutOfBounds),
                };
                let raw = match RawDirEntry::parse(batch.as_slice().split_at(k * DIRECTORY_ENTRY_SIZE).1) {
                    Ok(e) => e,
                    Err(_) => return Err(Error::OutOfBounds),
                };
                if raw.is_end() {
                    return Err(Error::NotFound);
                }
                if raw.is_deleted() {
                    lfn.reset();
                    k = k + 1;
                    continue;
                }
                if raw.is_lfn() {
                    match LfnEntry::parse(raw) {
                        Ok(entry) => {
                            let buf: &mut [u16] = &mut long_name;
                            lfn.push(entry, entry_index, buf);
                        },
                        Err(_) => lfn.reset(),
                    }
                    k = k + 1;
                    continue;
                }
                let valid_lfn = lfn.finish(raw.short_name());
                let long: Option<&[u16]> = match valid_lfn {
                    Some((_, length)) => {
                        if length <= 260 {
                            let (prefix, _) = long_name.as_slice().split_at(length);
                            Some(prefix)
                        } else {
                            None
                        }
                    },
                    None => None,
                };
                if lookup_accepts(&raw, long, name) {
                    proof {
                        reveal(spec_short_match_unless_long_named);
                    }
                    return Ok(
                        FoundEntry {
                            raw,
                            location: DirectoryEntryLocation {
                                directory: directory.directory_info().location,
                                index: entry_index,
                            },
                            lfn_start_index: match valid_lfn {
                                Some((start, _)) => Some(start),
                                None => None,
                            },
                        },
                    );
                }
                k = k + 1;
            }
            let consumed = count * DIRECTORY_ENTRY_SIZE;
            if consumed == 0 {
                return Err(Error::NotFound);
            }
            byte_offset = match byte_offset.checked_add(consumed as u64) {
                Some(o) => o,
                None => return Err(Error::OutOfBounds),
            };
            if read < 512 {
                return Err(Error::NotFound);
            }
        }
    }

    /// Finds an entry by path from the root directory.
    ///
    /// The path is split at `/`; empty and `.` components are ignored, and `..` is looked up as an
    /// on-disk entry. A path without components is `InvalidPath`; every component but the last
    /// must name a directory.
    fn find_entry_by_path(&mut self, path: &str) -> (r: Result<FoundEntry, Error<Self::Error>>)
        ensures
            spec_path_components(path.spec_bytes()).len() == 0 ==> r == Err::<
                FoundEntry,
                Error<Self::Error>,
            >(Error::InvalidPath),
            r matches Ok(f) ==> spec_path_components(path.spec_bytes()).len() > 0
                && spec_short_match_unless_long_named(
                f,
                spec_path_components(path.spec_bytes()).last(),
            ),
            r matches Err(e) ==> (e is Io || e is OutOfBounds || e is CorruptChain || e is NotFound
                || e is InvalidPath || e is NotADirectory),
    {
        let bytes = path.as_bytes();
        let len = bytes.len();
        let (s, e, next) = match next_component(bytes, 0) {
            Some(c) => c,
            None => {
                assert(bytes@.subrange(0, len as int) == bytes@);
                return Err(Error::InvalidPath);
            },
        };
        assert(bytes@.subrange(0, len as int) == bytes@);
        let ghost all = spec_path_components(bytes@);
        let mut directory = self.root_directory();
        let first = component_str(path, s, e);
        let mut entry = match self.find_entry(&directory, first) {
            Ok(f) => f,
            Err(err) => return Err(err),
        };
        let mut position = next;
        let ghost mut done: Seq<Seq<u8>> = seq![bytes@.subrange(s as int, e as int)];
        loop
            invariant
                bytes@ == path.spec_bytes(),
                len == bytes@.len(),
                position <= len,
                position == 0 || position == len || bytes@[position - 1] == 0x2f,
                all == spec_path_components(bytes@),
                all == done + spec_path_components(bytes@.subrange(position as int, len as int)),
                done.len() > 0,
                spec_short_match_unless_long_named(entry, done.last()),
            decreases len - position,
        {
            let (s, e, next) = match next_component(bytes, position) {
                Some(c) => c,
                None => {
                    assert(all == done);
                    return Ok(entry);
                },
            };
            if !entry.raw.is_directory() {
                return Err(Error::NotADirectory);
            }
            let volume = *self.volume();
            let location = match directory_location::<Self::Error>(&volume, &entry.raw) {
                Ok(l) => l,
                Err(err) => return Err(err),
            };
            directory = DirectoryInfo { location }.into();
            let component = component_str(path, s, e);
            entry = match self.find_entry(&directory, component) {
                Ok(f) => f,
                Err(err) => return Err(err),
            };
            proof {
                let c = bytes@.subrange(s as int, e as int);
                let rest = spec_path_components(bytes@.subrange(next as int, len as int));
                assert(done + (seq![c] + rest) == done.push(c) + rest);
                done = done.push(c);
            }
            position = next;
        }
    }

    /// Opens a directory by path from the root directory.
    ///
    /// A path without components opens the root directory.
    fn open_directory(&mut self, path: &str) -> (r: Result<Self::DirectoryHandle, Error<Self::Error>>)
        ensures
            r matches Err(e) ==> (e is Io || e is OutOfBounds || e is CorruptChain || e is NotFound
                || e is InvalidPath || e is NotADirectory),
            r matches Err(e) ==> spec_path_components(path.spec_bytes()).len() > 0,
            spec_path_components(path.spec_bytes()).len() == 0 ==> (<Self::DirectoryHandle as FromSpec<
                DirectoryInfo,
            >>::obeys_from_spec() ==> exists|v: Volume|
                r == Ok::<Self::DirectoryHandle, Error<Self::Error>>(
                    #[trigger] <Self::DirectoryHandle as FromSpec<DirectoryInfo>>::from_spec(
                        DirectoryInfo { location: spec_root_handle_location(v) },
                    ),
                )),
            spec_path_components(path.spec_bytes()).len() > 0 ==> (r matches Ok(h) ==> (
            <Self::DirectoryHandle as FromSpec<DirectoryInfo>>::obeys_from_spec() ==> exists|
                v: Volume,
                e: RawDirEntry,
            |
                (#[trigger] spec_directory_location(v, e) matches Some(location)
                    && e.spec_is_directory() && h == <Self::DirectoryHandle as FromSpec<
                    DirectoryInfo,
                >>::from_spec(DirectoryInfo { location })))),
    {
        let bytes = path.as_bytes();
        if let None = next_component(bytes, 0) {
            assert(bytes@.subrange(0, bytes@.len() as int) == bytes@);
            return Ok(self.root_directory());
        }
        assert(bytes@.subrange(0, bytes@.len() as int) == bytes@);
        let entry = match self.find_entry_by_path(path) {
            Ok(f) => f,
            Err(e) => return Err(e),
        };
        if !entry.raw.is_directory() {
            return Err(Error::NotADirectory);
        }
        let volume = *self.volume();
        let location = match directory_location::<Self::Error>(&volume, &entry.raw) {
            Ok(l) => l,
            Err(e) => return Err(e),
        };
        Ok(DirectoryInfo { location }.into())
    }
}

/// `value` as a `u32`, if it fits.
pub(crate) fn u32_from(value: u64) -> (r: Option<u32>)
    ensures
        value <= u32::MAX ==> r == Some(value as u32),
        value > u32::MAX ==> r is None,
{
    if value <= u32::MAX as u64 {
        Some(value as u32)
    } else {
        None
    }
}

/// Paths are resolved from the root directory whether or not they start with a slash.
pub proof fn lemma_leading_slash_is_ignored(p: Seq<u8>)
    ensures
        spec_path_components(seq![0x2fu8] + p) == spec_path_components(p),
{
    reveal(spec_path_components);
    let q = seq![0x2fu8] + p;
    assert(q[0] == 0x2f);
    crate::format::lemma_first_index_of(q, 0x2f);
    assert(spec_first_index_of(q, 0x2f) == 0);
    assert(q.subrange(1, q.len() as int) == p);
    assert(q.subrange(0, 0).len() == 0);
}

/// A `.` component stands for the directory it is in, so it changes nothing.
pub proof fn lemma_dot_component_is_ignored(p: Seq<u8>)
    ensures
        spec_path_components(seq![0x2eu8, 0x2fu8] + p) == spec_path_components(p),
{
    reveal(spec_path_components);
    let q = seq![0x2eu8, 0x2fu8] + p;
    assert(q[1] == 0x2f);
    crate::format::lemma_first_index_of(q, 0x2f);
    assert(spec_first_index_of(q, 0x2f) == 1);
    assert(q.subrange(2, q.len() as int) == p);
    assert(q.subrange(0, 1) == seq![0x2eu8]);
}

// ---------------------------------------------------------------------------
// Files
// ---------------------------------------------------------------------------

/// The file metadata described by a found entry, or why it does not describe a file.
pub open spec fn spec_file_info(volume: Volume, entry: FoundEntry) -> Result<FileInfo, ()> {
    let raw = entry.raw;
    let length = crate::format::spec_le32(raw.0@, 28);
    let cluster = spec_entry_first_cluster(volume, raw);
    if raw.spec_is_directory() || raw.spec_is_volume_label() {
        Err(())
    } else if length != 0 && cluster < 2 {
        Err(())
    } else {
        Ok(
            FileInfo {
                first_cluster: if cluster >= 2 {
                    Some(Cluster::spec_from(cluster))
                } else {
                    None
                },
                length: length as u64,
                attributes: raw.0@[11],
                entry: entry.location,
            },
        )
    }
}

/// Turns a found entry into file metadata: a directory or volume label is `NotAFile`, and a
/// non-empty file without a data cluster is `CorruptChain`.
pub fn file_info_of<E>(volume: &Volume, entry: &FoundEntry) -> (r: Result<FileInfo, Error<E>>)
    ensures
        match spec_file_info(*volume, *entry) {
            Ok(info) => r == Ok::<FileInfo, Error<E>>(info),
            Err(()) => r == Err::<FileInfo, Error<E>>(
                if entry.raw.spec_is_directory() || entry.raw.spec_is_volume_label() {
                    Error::NotAFile
                } else {
                    Error::CorruptChain
                },
            ),
        },
{
    if entry.raw.is_directory() || entry.raw.is_volume_label() {
        return Err(Error::NotAFile);
    }
    let length = entry.raw.file_size() as u64;
    let first_cluster = Cluster::new(entry_first_cluster(volume, &entry.raw));
    if length != 0 && first_cluster.is_none() {
        return Err(Error::CorruptChain);
    }
    Ok(FileInfo { first_cluster, length, attributes: entry.raw.attributes(), entry: entry.location })
}

/// How many bytes a read of `out_len` bytes at `offset` returns from a file of `length` bytes.
pub open spec fn spec_read_length(length: u64, offset: u64, out_len: int) -> int {
    if offset >= length || out_len == 0 {
        0
    } else if out_len < length - offset {
        out_len
    } else {
        length - offset
    }
}

/// How many bytes a read of `out_len` bytes at `offset` returns from a file of `length` bytes:
/// none at or past the end, otherwise as many as fit before the end.
pub fn read_length(length: u64, offset: u64, out_len: usize) -> (r: usize)
    ensures
        r == spec_read_length(length, offset, out_len as int),
        r <= out_len,
{
    if offset >= length || out_len == 0 {
        return 0;
    }
    let available = length - offset;
    if (out_len as u64) < available {
        out_len
    } else {
        available as usize
    }
}

/// Provides file lookup and reading.
pub trait FileAccess: DirectoryAccess {
    /// Application-owned file handle type.
    type FileHandle: FileHandle + From<FileInfo>;

    /// Opens a file by path from the root directory.
    fn open_file(&mut self, path: &str) -> (r: Result<Self::FileHandle, Error<Self::Error>>)
        ensures
            spec_path_components(path.spec_bytes()).len() == 0 ==> r matches Err(Error::InvalidPath),
            r matches Err(e) ==> (e is Io || e is OutOfBounds || e is CorruptChain || e is NotFound
                || e is InvalidPath || e is NotADirectory || e is NotAFile),
            r matches Ok(h) ==> (<Self::FileHandle as FromSpec<FileInfo>>::obeys_from_spec()
                ==> exists|v: Volume, f: FoundEntry|
                #[trigger] spec_file_info(v, f) matches Ok(info) && h == <Self::FileHandle as FromSpec<
                    FileInfo,
                >>::from_spec(info)),
    {
        let entry = match self.find_entry_by_path(path) {
            Ok(f) => f,
            Err(e) => return Err(e),
        };
        let volume = *self.volume();
        match file_info_of::<Self::Error>(&volume, &entry) {
            Ok(info) => Ok(info.into()),
            Err(e) => Err(e),
        }
    }

    /// Resolves the cluster at `index` for a file handle.
    ///
    /// The default implementation delegates to the chain-level `cluster_at` method.
    fn resolve_file_cluster(&mut self, file: &mut Self::FileHandle, index: u32) -> (r: Result<Option<Cluster>, Error<Self::Error>>)
        ensures
            r matches Err(e) ==> (e is Io || e is OutOfBounds || e is CorruptChain),
    {
        match file.file_info().first_cluster {
            None => Ok(None),
            Some(first) => self.cluster_at(first, index),
        }
    }

    /// Resolves the cluster following `current` during sequential file access.
    ///
    /// The default implementation delegates to the chain-level `next_cluster` method.
    fn resolve_next_file_cluster(&mut self, file: &mut Self::FileHandle, current: Cluster, next_index: u32) -> (r: Result<Option<Cluster>, Error<Self::Error>>)
        ensures
            r matches Err(e) ==> (e is Io || e is OutOfBounds || e is CorruptChain),
    {
        self.next_cluster(current)
    }

    /// Reads file data at an absolute file offset.
    ///
    /// Reading stops at the end of the file; at or past it the result is 0.
    fn read_file_at(&mut self, file: &mut Self::FileHandle, offset: u64, out: &mut [u8]) -> (r: Result<usize, Error<Self::Error>>)
        ensures
            final(out)@.len() == old(out)@.len(),
            old(out)@.len() == 0 ==> r == Ok::<usize, Error<Self::Error>>(0),
            r matches Ok(n) ==> n <= old(out)@.len(),
            r matches Err(e) ==> (e is Io || e is OutOfBounds || e is CorruptChain),
    {
        let info = *file.file_info();
        let n = out.len();
        let requested = read_length(info.length, offset, n);
        if requested == 0 {
            return Ok(0);
        }
        let volume = *self.volume();
        let cluster_size = volume.cluster_size();
        if cluster_size == 0 {
            return Err(Error::OutOfBounds);
        }
        let (first_index, within) = match chain_position(offset, cluster_size) {
            Some(p) => p,
            None => return Err(Error::OutOfBounds),
        };
        let mut cluster_index = first_index;
        let mut within_cluster = within;
        let mut cluster = match self.resolve_file_cluster(file, cluster_index) {
            Ok(Some(c)) => c,
            Ok(None) => return Err(Error::CorruptChain),
            Err(e) => return Err(e),
        };
        let mut read: usize = 0;
        while read < requested
            invariant
                read <= requested <= n,
                n == old(out)@.len(),
                out@.len() == n,
                within_cluster < cluster_size,
            decreases requested - read,
        {
            let room = cluster_size - within_cluster;
            let length = if room < requested - read { room } else { requested - read };
            let base = match volume.cluster_byte_offset(cluster) {
                Some(b) => b,
                None => return Err(Error::CorruptChain),
            };
            let byte_offset = match base.checked_add(within_cluster as u64) {
                Some(o) => o,
                None => return Err(Error::OutOfBounds),
            };
            let result = {
                let (_, rest) = out.split_at_mut(read);
                let (part, _) = rest.split_at_mut(length);
                self.read_volume_at(byte_offset, part)
            };
            if let Err(e) = result {
                return Err(e);
            }
            read = read + length;
            within_cluster = 0;
            if read < requested {
                cluster_index = match cluster_index.checked_add(1) {
                    Some(i) => i,
                    None => return Err(Error::OutOfBounds),
                };
                cluster = match self.resolve_next_file_cluster(file, cluster, cluster_index) {
                    Ok(Some(c)) => c,
                    Ok(None) => return Err(Error::CorruptChain),
                    Err(e) => return Err(e),
                };
            }
        }
        Ok(read)
    }
}

// ---------------------------------------------------------------------------
// Allocation
// ---------------------------------------------------------------------------

/// The FAT copies that a write updates: all of them when mirroring is on, otherwise the active
/// one; given as the first copy and the copy after the last.
pub open spec fn spec_fat_copies(volume: Volume) -> (int, int) {
    if volume.spec_fat_mirroring_enabled() {
        (0, volume.bpb.fat_count as int)
    } else {
        (volume.spec_active_fat() as int, volume.spec_active_fat() + 1)
    }
}

fn fat_copies(volume: &Volume) -> (r: (u8, u8))
    ensures
        r.0 == spec_fat_copies(*volume).0,
        r.1 == spec_fat_copies(*volume).1,
{
    if volume.fat_mirroring_enabled() {
        (0, volume.bpb.fat_count)
    } else {
        let active = volume.active_fat();
        (active, active + 1)
    }
}

/// Byte offset of the free-space hints of a FAT32 FSInfo sector, if the volume has a usable one.
pub open spec fn spec_fs_info_hints(volume: Volume) -> Option<int> {
    let sector = volume.bpb.fs_info_sector;
    if volume.fat_type == FatType::Fat32 && sector != 0 && sector != 0xffff && sector
        < volume.bpb.reserved_sector_count {
        Some(sector * volume.bpb.bytes_per_sector + 488)
    } else {
        None
    }
}

fn fs_info_hints(volume: &Volume) -> (r: Option<u64>)
    ensures
        match spec_fs_info_hints(*volume) {
            Some(o) => r == Some(o as u64),
            None => r is None,
        },
{
    let sector = volume.bpb.fs_info_sector;
    if volume.fat_type == FatType::Fat32 && sector != 0 && sector != 0xffff && sector
        < volume.bpb.reserved_sector_count {
        assert(sector * volume.bpb.bytes_per_sector <= 0xffff * 0xffff) by (nonlinear_arith)
            requires sector <= 0xffff, volume.bpb.bytes_per_sector <= 0xffff;
        Some(volume.sector_byte_offset(sector as u32) + 488)
    } else {
        None
    }
}

/// Provides cluster allocation and chain mutation.
pub trait AllocationAccess: ChainAccess + BlockWrite {
    /// Writes bytes at an absolute volume offset.
    fn write_volume_at(&mut self, byte_offset: u64, data: &[u8]) -> (r: Result<(), Error<Self::Error>>)
        ensures
            data@.len() > 0 && byte_offset + data@.len() > u64::MAX ==> r is Err,
            r matches Err(e) ==> (e is Io || e is OutOfBounds),
    {
        write_device_at(self, byte_offset, data)
    }

    /// Writes a FAT entry to every active FAT copy, then invalidates the FSInfo hints.
    fn write_fat_entry(&mut self, cluster: Cluster, value: FatEntry) -> (r: Result<(), Error<Self::Error>>)
        ensures
            r matches Err(e) ==> (e is Io || e is OutOfBounds || e is CorruptChain
                || e == Error::<Self::Error>::InvalidFormat(FormatError::InvalidFatEntry)),
    {
        let volume = *self.volume();
        if let Err(e) = validate_cluster::<Self::Error>(&volume, cluster) {
            return Err(e);
        }
        let (first_fat, end_fat) = fat_copies(&volume);
        let mut fat = first_fat;
        while fat < end_fat
            invariant
                first_fat <= fat <= end_fat || end_fat <= first_fat,
            decreases end_fat - fat,
        {
            let start = fat_start(&volume, fat);
            if let Err(e) = self.write_one_fat_entry(start, cluster, value) {
                return Err(e);
            }
            fat = fat + 1;
        }
        self.invalidate_fs_info()
    }

    /// Invalidates free-space hints in a FAT32 FSInfo sector.
    fn invalidate_fs_info(&mut self) -> (r: Result<(), Error<Self::Error>>)
        ensures
            r matches Err(e) ==> (e is Io || e is OutOfBounds),
    {
        let volume = *self.volume();
        if let Some(offset) = fs_info_hints(&volume) {
            let unknown = [0xffu8; 8];
            return self.write_volume_at(offset, &unknown);
        }
        Ok(())
    }

    /// Writes an entry to one FAT copy.
    ///
    /// The FAT12 byte pair and the FAT32 entry are read first so that the neighbouring bits are
    /// kept.
    fn write_one_fat_entry(&mut self, fat_start: u64, cluster: Cluster, value: FatEntry) -> (r: Result<(), Error<Self::Error>>)
        ensures
            r matches Err(e) ==> (e is Io || e is OutOfBounds
                || e == Error::<Self::Error>::InvalidFormat(FormatError::InvalidFatEntry)),
    {
        let fat_type = self.volume().fat_type;
        let offset = match fat_entry_position(fat_type, fat_start, cluster) {
            Some(o) => o,
            None => return Err(Error::OutOfBounds),
        };
        match fat_type {
            FatType::Fat12 => {
                let mut bytes = [0u8; 2];
                {
                    let buf: &mut [u8] = &mut bytes;
                    if let Err(e) = self.read_volume_at(offset, buf) {
                        return Err(e);
                    }
                }
                {
                    let buf: &mut [u8] = &mut bytes;
                    if let Err(e) = value.serialize_into(fat_type, cluster.get(), buf) {
                        return Err(Error::InvalidFormat(e));
                    }
                }
                self.write_volume_at(offset, &bytes)
            },
            FatType::Fat16 => {
                let mut bytes = [0u8; 2];
                {
                    let buf: &mut [u8] = &mut bytes;
                    if let Err(e) = value.serialize_into(fat_type, cluster.get(), buf) {
                        return Err(Error::InvalidFormat(e));
                    }
                }
                self.write_volume_at(offset, &bytes)
            },
            FatType::Fat32 => {
                let mut bytes = [0u8; 4];
                {
                    let buf: &mut [u8] = &mut bytes;
                    if let Err(e) = self.read_volume_at(offset, buf) {
                        return Err(e);
                    }
                }
                {
                    let buf: &mut [u8] = &mut bytes;
                    if let Err(e) = value.serialize_into(fat_type, cluster.get(), buf) {
                        return Err(Error::InvalidFormat(e));
                    }
                }
                self.write_volume_at(offset, &bytes)
            },
        }
    }

    /// Finds a free cluster, beginning after an optional hint.
    ///
    /// The clusters after the hint (or from 2 without one) up to the highest cluster are tried
    /// first, then those from 2 up to the hint. A hint above the highest cluster is
    /// `OutOfBounds`; a full FAT is `NoSpace`.
    fn find_free_cluster(&mut self, start: Option<Cluster>) -> (r: Result<Cluster, Error<Self::Error>>)
        ensures
            r matches Err(e) ==> (e is Io || e is OutOfBounds || e is CorruptChain || e is NoSpace),
    {
        let volume = *self.volume();
        let max = match volume.cluster_count.checked_add(1) {
            Some(m) => m,
            None => return Err(Error::OutOfBounds),
        };
        let first: u64 = match start {
            Some(c) => {
                if c.get() > max {
                    return Err(Error::OutOfBounds);
                }
                c.get() as u64 + 1
            },
            None => 2,
        };
        let mut raw: u64 = first;
        while raw <= max as u64
            invariant
                2 <= first <= max as u64 + 1,
                first <= raw,
            decreases max as u64 + 1 - raw,
        {
            let cluster = match Cluster::new(raw as u32) {
                Some(c) => c,
                None => return Err(Error::OutOfBounds),
            };
            let entry = match self.read_fat_entry(cluster) {
                Ok(e) => e,
                Err(e) => return Err(e),
            };
            if entry == FatEntry::Free {
                return Ok(cluster);
            }
            raw = raw + 1;
        }
        let mut raw: u64 = 2;
        while raw < first
            invariant
                2 <= raw,
                first <= u32::MAX as u64 + 1,
            decreases first - raw,
        {
            let cluster = match Cluster::new(raw as u32) {
                Some(c) => c,
                None => return Err(Error::OutOfBounds),
            };
            let entry = match self.read_fat_entry(cluster) {
                Ok(e) => e,
                Err(e) => return Err(e),
            };
            if entry == FatEntry::Free {
                return Ok(cluster);
            }
            raw = raw + 1;
        }
        Err(Error::NoSpace)
    }

    /// Allocates and clears a cluster, optionally appending it to a chain.
    ///
    /// `after` must be the end of its chain. The new cluster is marked end-of-chain and cleared
    /// before it is linked.
    fn allocate_cluster(&mut self, after: Option<Cluster>) -> (r: Result<Cluster, Error<Self::Error>>)
        ensures
            r matches Err(e) ==> (e is Io || e is OutOfBounds || e is CorruptChain || e is NoSpace
                || e == Error::<Self::Error>::InvalidFormat(FormatError::InvalidFatEntry)),
    {
        if let Some(previous) = after {
            let entry = match self.read_fat_entry(previous) {
                Ok(e) => e,
                Err(e) => return Err(e),
            };
            if entry != FatEntry::EndOfChain {
                return Err(Error::CorruptChain);
            }
        }
        let cluster = match self.find_free_cluster(after) {
            Ok(c) => c,
            Err(e) => return Err(e),
        };
        if let Err(e) = self.write_fat_entry(cluster, FatEntry::EndOfChain) {
            return Err(e);
        }
        if let Err(e) = self.clear_cluster(cluster) {
            return Err(e);
        }
        if let Some(previous) = after {
            if let Err(e) = self.write_fat_entry(previous, FatEntry::Data(cluster.get())) {
                return Err(e);
            }
        }
        Ok(cluster)
    }

    /// Fills a cluster with zeroes.
    fn clear_cluster(&mut self, cluster: Cluster) -> (r: Result<(), Error<Self::Error>>)
        ensures
            r matches Err(e) ==> (e is Io || e is OutOfBounds || e is CorruptChain),
    {
        let volume = *self.volume();
        let start = match volume.cluster_byte_offset(cluster) {
            Some(s) => s,
            None => return Err(Error::CorruptChain),
        };
        let cluster_size = volume.cluster_size();
        let zeros = [0u8; 512];
        let mut offset: usize = 0;
        while offset < cluster_size
            invariant
                offset <= cluster_size,
            decreases cluster_size - offset,
        {
            let length = if 512 < cluster_size - offset { 512 } else { cluster_size - offset };
            let (part, _) = zeros.as_slice().split_at(length);
            let position = match start.checked_add(offset as u64) {
                Some(p) => p,
                None => return Err(Error::OutOfBounds),
            };
            if let Err(e) = self.write_volume_at(position, part) {
                return Err(e);
            }
            offset = offset + length;
        }
        Ok(())
    }

    /// Returns the tail and length of a cluster chain.
    ///
    /// A chain longer than the volume's cluster count is `CorruptChain`.
    fn chain_tail_and_length(&mut self, first: Cluster) -> (r: Result<(Cluster, u32), Error<Self::Error>>)
        ensures
            r matches Ok((_, n)) ==> n >= 1,
            r matches Err(e) ==> (e is Io || e is OutOfBounds || e is CorruptChain),
    {
        let count = self.volume().cluster_count;
        let mut current = first;
        let mut length: u32 = 1;
        while length <= count
            invariant
                1 <= length,
            decreases count as int + 1 - length,
        {
            let next = match self.next_cluster(current) {
                Ok(n) => n,
                Err(e) => return Err(e),
            };
            match next {
                None => return Ok((current, length)),
                Some(n) => current = n,
            }
            if length == count {
                break;
            }
            length = length + 1;
        }
        Err(Error::CorruptChain)
    }

    /// Extends a chain to contain at least `required` clusters.
    ///
    /// An empty chain (`None`) gets a first cluster; an existing first cluster is kept.
    fn ensure_chain_length(&mut self, first: &mut Option<Cluster>, required: u32) -> (r: Result<(), Error<Self::Error>>)
        ensures
            required == 0 ==> r is Ok && *final(first) == *old(first),
            *old(first) is Some ==> *final(first) == *old(first),
            r is Ok && required > 0 ==> *final(first) is Some,
            r matches Err(e) ==> (e is Io || e is OutOfBounds || e is CorruptChain || e is NoSpace
                || e == Error::<Self::Error>::InvalidFormat(FormatError::InvalidFatEntry)),
    {
        if required == 0 {
            return Ok(());
        }
        let existing: Option<Cluster> = *first;
        let (mut tail, mut length) = match existing {
            Some(f) => match self.chain_tail_and_length(f) {
                Ok(t) => t,
                Err(e) => {
                    assert(*first == *old(first));
                    return Err(e);
                },
            },
            None => {
                assert(*old(first) is None);
                let allocated = match self.allocate_cluster(None) {
                    Ok(c) => c,
                    Err(e) => {
                        assert(*first == *old(first));
                        return Err(e);
                    },
                };
                *first = Some(allocated);
                (allocated, 1)
            },
        };
        let ghost kept = *first;
        assert(*old(first) is Some ==> kept == *old(first));
        assert(kept is Some);
        while length < required
            invariant
                *first == kept,
                kept is Some,
                *old(first) is Some ==> kept == *old(first),
            decreases required - length,
        {
            tail = match self.allocate_cluster(Some(tail)) {
                Ok(c) => c,
                Err(e) => return Err(e),
            };
            length = length + 1;
        }
        Ok(())
    }

    /// Truncates a chain and returns its retained first cluster.
    ///
    /// Keeping no cluster frees the whole chain; otherwise the cluster at `keep_clusters - 1`
    /// becomes the end of the chain and the rest is freed.
    fn truncate_chain(&mut self, first: Option<Cluster>, keep_clusters: u32) -> (r: Result<Option<Cluster>, Error<Self::Error>>)
        ensures
            r matches Ok(kept) ==> kept == if keep_clusters == 0 { None } else { first },
            first is None ==> r == Ok::<Option<Cluster>, Error<Self::Error>>(None),
            r matches Err(e) ==> (e is Io || e is OutOfBounds || e is CorruptChain
                || e == Error::<Self::Error>::InvalidFormat(FormatError::InvalidFatEntry)),
    {
        let first = match first {
            Some(f) => f,
            None => return Ok(None),
        };
        if keep_clusters == 0 {
            if let Err(e) = self.free_chain(first) {
                return Err(e);
            }
            return Ok(None);
        }
        let last = match self.cluster_at(first, keep_clusters - 1) {
            Ok(Some(c)) => c,
            Ok(None) => return Err(Error::CorruptChain),
            Err(e) => return Err(e),
        };
        let tail = match self.next_cluster(last) {
            Ok(t) => t,
            Err(e) => return Err(e),
        };
        if let Some(tail) = tail {
            if let Err(e) = self.write_fat_entry(last, FatEntry::EndOfChain) {
                return Err(e);
            }
            if let Err(e) = self.free_chain(tail) {
                return Err(e);
            }
        }
        Ok(Some(first))
    }

    /// Writes bytes at an offset within an existing cluster chain.
    ///
    /// Writing stops at the end of the chain; the number of bytes written is returned.
    fn write_chain_at(&mut self, first: Cluster, offset: u64, data: &[u8]) -> (r: Result<usize, Error<Self::Error>>)
        ensures
            spec_offset_past_any_chain(offset) ==> r == Err::<usize, Error<Self::Error>>(
                Error::OutOfBounds,
            ),
            r matches Ok(n) ==> n <= data@.len(),
            r matches Err(e) ==> (e is Io || e is OutOfBounds || e is CorruptChain),
    {
        let volume = *self.volume();
        let cluster_size = volume.cluster_size();
        if cluster_size == 0 {
            return Err(Error::OutOfBounds);
        }
        let (cluster_index, within) = match chain_position(offset, cluster_size) {
            Some(p) => p,
            None => return Err(Error::OutOfBounds),
        };
        let mut within_cluster = within;
        let found = match self.cluster_at(first, cluster_index) {
            Ok(c) => c,
            Err(e) => return Err(e),
        };
        let mut cluster = match found {
            Some(c) => c,
            None => return Ok(0),
        };
        let n = data.len();
        let mut written: usize = 0;
        while written < n
            invariant
                written <= n,
                n == data@.len(),
                within_cluster < cluster_size,
                !spec_offset_past_any_chain(offset),
            decreases n - written,
        {
            let room = cluster_size - within_cluster;
            let length = if room < n - written { room } else { n - written };
            let base = match volume.cluster_byte_offset(cluster) {
                Some(b) => b,
                None => return Err(Error::CorruptChain),
            };
            let byte_offset = match base.checked_add(within_cluster as u64) {
                Some(o) => o,
                None => return Err(Error::OutOfBounds),
            };
            let (_, rest) = data.split_at(written);
            let (part, _) = rest.split_at(length);
            if let Err(e) = self.write_volume_at(byte_offset, part) {
                return Err(e);
            }
            written = written + length;
            within_cluster = 0;
            if written < n {
                let next = match self.next_cluster(cluster) {
                    Ok(c) => c,
                    Err(e) => return Err(e),
                };
                match next {
                    None => break,
                    Some(c) => cluster = c,
                }
            }
        }
        Ok(written)
    }

    /// Releases every cluster in a chain.
    ///
    /// A chain longer than the volume's cluster count is `CorruptChain`.
    fn free_chain(&mut self, first: Cluster) -> (r: Result<(), Error<Self::Error>>)
        ensures
            r matches Err(e) ==> (e is Io || e is OutOfBounds || e is CorruptChain
                || e == Error::<Self::Error>::InvalidFormat(FormatError::InvalidFatEntry)),
    {
        let count = self.volume().cluster_count;
        let mut current = first;
        let mut step: u32 = 0;
        while step < count
            invariant
                step <= count,
            decreases count - step,
        {
            let next = match self.next_cluster(current) {
                Ok(n) => n,
                Err(e) => return Err(e),
            };
            if let Err(e) = self.write_fat_entry(current, FatEntry::Free) {
                return Err(e);
            }
            match next {
                None => return Ok(()),
                Some(n) => current = n,
            }
            step = step + 1;
        }
        Err(Error::CorruptChain)
    }
}

// ---------------------------------------------------------------------------
// A ready-made file system
// ---------------------------------------------------------------------------

/// A file system over a block device whose byte 0 is the start of the volume, using the basic
/// handles. Partition tables are not searched: a device that starts elsewhere is wrapped in a
/// `BlockAccess` of its own that offsets the blocks.
pub struct FileSystem<D> {
    device: D,
    volume: Volume,
}

impl<D> FileSystem<D> {
    /// The volume metadata read when the file system was opened.
    pub closed spec fn spec_volume(&self) -> Volume {
        self.volume
    }

    /// The volume metadata.
    pub fn volume_info(&self) -> (r: &Volume)
        ensures
            *r == self.spec_volume(),
    {
        &self.volume
    }

    /// The device the file system works on.
    pub closed spec fn spec_device(&self) -> D {
        self.device
    }

    /// The underlying device.
    pub fn device(&self) -> (r: &D)
        ensures
            *r == self.spec_device(),
    {
        &self.device
    }

    /// Gives the underlying device back.
    pub fn into_device(self) -> (r: D)
        ensures
            r == self.spec_device(),
    {
        self.device
    }
}

impl<D: BlockAccess> FileSystem<D> {
    /// Reads the boot sector of a device and opens the volume it describes.
    pub fn new(device: D) -> (r: Result<Self, Error<D::Error>>)
        ensures
            r matches Ok(fs) ==> fs.spec_volume().spec_well_formed() && exists|b: Seq<u8>|
                b.len() == 512 && #[trigger] spec_volume_from_boot_sector::<D::Error>(b) == Ok::<
                    Volume,
                    Error<D::Error>,
                >(fs.spec_volume()),
            r matches Err(e) ==> (e is Io || e is OutOfBounds || e is InvalidFormat),
    {
        let mut device = device;
        match read_volume(&mut device) {
            Ok(volume) => Ok(FileSystem { device, volume }),
            Err(e) => Err(e),
        }
    }
}

impl<D: BlockAccess> BlockAccess for FileSystem<D> {
    type Error = D::Error;

    fn block_size(&self) -> usize {
        self.device.block_size()
    }

    fn read_block_at(&mut self, block: u64, offset: usize, out: &mut [u8]) -> (r: Result<(), Self::Error>) {
        self.device.read_block_at(block, offset, out)
    }
}

impl<D: BlockWrite> BlockWrite for FileSystem<D> {
    fn write_block_at(&mut self, block: u64, offset: usize, data: &[u8]) -> Result<(), Self::Error> {
        self.device.write_block_at(block, offset, data)
    }
}

impl<D: BlockAccess> ChainAccess for FileSystem<D> {
    fn volume(&self) -> (r: &Volume)
        ensures
            *r == self.spec_volume(),
    {
        &self.volume
    }
}

impl<D: BlockAccess> DirectoryAccess for FileSystem<D> {
    type DirectoryHandle = BasicDirectoryHandle;
}

impl<D: BlockAccess> FileAccess for FileSystem<D> {
    type FileHandle = BasicFileHandle;
}

impl<D: BlockWrite> AllocationAccess for FileSystem<D> {
}

} // verus!
