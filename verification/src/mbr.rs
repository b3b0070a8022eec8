//! Master Boot Record partition-table parsing.
use vstd::prelude::*;
use crate::access::{BlockAccess, block_span};
use crate::format::spec_le32;

verus! {

/// Number of primary partition entries in an MBR.
pub const MBR_PARTITION_COUNT: usize = 4;

const MBR_SIZE: usize = 512;

const PARTITION_TABLE_OFFSET: usize = 446;

const PARTITION_ENTRY_SIZE: usize = 16;

/// An error produced while reading an MBR partition table.
#[derive(Clone, Copy, Debug, PartialEq, Eq)]
pub enum MbrError<E> {
    /// The underlying block device returned an error.
    Io(E),
    /// The block device reports a block size of zero.
    InvalidBlockSize,
    /// The first sector is not a valid MBR.
    InvalidFormat(MbrFormatError),
}

/// An error produced while parsing an MBR partition table.
#[derive(Clone, Copy, Debug, PartialEq, Eq, Structural)]
pub enum MbrFormatError {
    /// The supplied byte buffer is smaller than one MBR sector.
    BufferTooSmall,
    /// The MBR signature is missing.
    InvalidSignature,
}

/// One primary partition entry from an MBR.
#[derive(Clone, Copy, Debug, PartialEq, Eq)]
pub struct MbrPartitionEntry {
    /// Boot indicator byte.
    pub boot_indicator: u8,
    /// Raw three-byte CHS address of the first sector.
    pub first_chs: [u8; 3],
    /// Partition type byte.
    pub partition_type: u8,
    /// Raw three-byte CHS address of the last sector.
    pub last_chs: [u8; 3],
    /// First sector as a 512-byte-sector LBA.
    pub first_lba: u32,
    /// Partition length in 512-byte sectors.
    pub sector_count: u32,
}

impl MbrPartitionEntry {
    /// Whether `e` is the entry stored in the 16 bytes of `b` starting at `o`.
    pub open spec fn spec_parsed_from(e: MbrPartitionEntry, b: Seq<u8>, o: int) -> bool {
        &&& e.boot_indicator == b[o]
        &&& e.first_chs@ == b.subrange(o + 1, o + 4)
        &&& e.partition_type == b[o + 4]
        &&& e.last_chs@ == b.subrange(o + 5, o + 8)
        &&& e.first_lba == spec_le32(b, o + 8)
        &&& e.sector_count == spec_le32(b, o + 12)
    }

    /// Returns whether the boot indicator marks this partition active.
    pub fn is_bootable(&self) -> (r: bool)
        ensures
            r == (self.boot_indicator == 0x80),
    {
        self.boot_indicator == 0x80
    }

    /// Returns whether this entry has an unused partition type.
    pub fn is_unused(&self) -> (r: bool)
        ensures
            r == (self.partition_type == 0),
    {
        self.partition_type == 0
    }

    fn parse(bytes: &[u8], o: usize) -> (r: Self)
        requires
            o + PARTITION_ENTRY_SIZE <= bytes@.len(),
        ensures
            MbrPartitionEntry::spec_parsed_from(r, bytes@, o as int),
    {
        let r = MbrPartitionEntry {
            boot_indicator: bytes[o],
            first_chs: [bytes[o + 1], bytes[o + 2], bytes[o + 3]],
            partition_type: bytes[o + 4],
            last_chs: [bytes[o + 5], bytes[o + 6], bytes[o + 7]],
            first_lba: crate::format::le32(bytes, o + 8),
            sector_count: crate::format::le32(bytes, o + 12),
        };
        assert(r.first_chs@ == bytes@.subrange(o + 1, o + 4));
        assert(r.last_chs@ == bytes@.subrange(o + 5, o + 8));
        r
    }
}

/// The four primary partition entries stored in an MBR.
#[derive(Clone, Copy, Debug, PartialEq, Eq)]
pub struct MbrPartitionTable {
    /// Primary partition entries in on-disk order.
    pub entries: [MbrPartitionEntry; MBR_PARTITION_COUNT],
}

impl MbrPartitionTable {
    /// Whether `b` holds a partition table: it is a full sector with the boot signature.
    pub open spec fn spec_valid(b: Seq<u8>) -> bool {
        b.len() >= 512 && b[510] == 0x55 && b[511] == 0xaa
    }

    /// Whether `t` holds the four entries stored in the sector `b`.
    pub open spec fn spec_parsed_from(t: MbrPartitionTable, b: Seq<u8>) -> bool {
        forall|i: int|
            0 <= i < 4 ==> MbrPartitionEntry::spec_parsed_from(
                #[trigger] t.entries@[i],
                b,
                446 + 16 * i,
            )
    }

    /// Parses the primary partition table from an MBR sector image.
    pub fn parse(mbr: &[u8]) -> (r: Result<Self, MbrFormatError>)
        ensures
            mbr@.len() < 512 ==> r == Err::<MbrPartitionTable, MbrFormatError>(
                MbrFormatError::BufferTooSmall,
            ),
            mbr@.len() >= 512 && !MbrPartitionTable::spec_valid(mbr@) ==> r == Err::<
                MbrPartitionTable,
                MbrFormatError,
            >(MbrFormatError::InvalidSignature),
            MbrPartitionTable::spec_valid(mbr@) ==> r is Ok && MbrPartitionTable::spec_parsed_from(
                r->Ok_0,
                mbr@,
            ),
    {
        if mbr.len() < MBR_SIZE {
            return Err(MbrFormatError::BufferTooSmall);
        }
        if !(mbr[510] == 0x55 && mbr[511] == 0xaa) {
            return Err(MbrFormatError::InvalidSignature);
        }
        let e0 = MbrPartitionEntry::parse(mbr, PARTITION_TABLE_OFFSET);
        let e1 = MbrPartitionEntry::parse(mbr, PARTITION_TABLE_OFFSET + PARTITION_ENTRY_SIZE);
        let e2 = MbrPartitionEntry::parse(mbr, PARTITION_TABLE_OFFSET + 2 * PARTITION_ENTRY_SIZE);
        let e3 = MbrPartitionEntry::parse(mbr, PARTITION_TABLE_OFFSET + 3 * PARTITION_ENTRY_SIZE);
        let t = MbrPartitionTable { entries: [e0, e1, e2, e3] };
        assert(t.entries@[0] == e0 && t.entries@[1] == e1 && t.entries@[2] == e2 && t.entries@[3] == e3);
        Ok(t)
    }
}

/// Reads the primary partition table from a block device.
///
/// The first 512 bytes of the device are read block by block; the block size comes from the
/// device, and what the device returns decides the outcome.
pub fn read_mbr<T: BlockAccess + ?Sized>(device: &mut T) -> (r: Result<MbrPartitionTable, MbrError<T::Error>>)
    ensures
        r is Ok ==> exists|b: Seq<u8>| b.len() == 512 && MbrPartitionTable::spec_valid(b)
            && #[trigger] MbrPartitionTable::spec_parsed_from(r->Ok_0, b),
        r matches Err(MbrError::InvalidFormat(e)) ==> e == MbrFormatError::InvalidSignature,
{
    let block_size = device.block_size();
    if block_size == 0 {
        return Err(MbrError::InvalidBlockSize);
    }
    let mut mbr = [0u8; MBR_SIZE];
    let mut read: usize = 0;
    while read < MBR_SIZE
        invariant
            read <= MBR_SIZE,
            block_size > 0,
            mbr@.len() == 512,
        decreases MBR_SIZE - read,
    {
        let (block, offset, length) = block_span(read as u64, MBR_SIZE - read, block_size);
        let buf: &mut [u8] = &mut mbr;
        let (_, rest) = buf.split_at_mut(read);
        let (part, _) = rest.split_at_mut(length);
        match device.read_block_at(block, offset, part) {
            Ok(()) => {},
            Err(e) => return Err(MbrError::Io(e)),
        }
        read = read + length;
    }
    let sector = mbr.as_slice();
    assert(sector@ == mbr@);
    assert(sector@.len() == 512);
    match MbrPartitionTable::parse(sector) {
        Ok(t) => {
            assert(MbrPartitionTable::spec_valid(sector@));
            assert(MbrPartitionTable::spec_parsed_from(t, sector@));
            let res: Result<MbrPartitionTable, MbrError<T::Error>> = Ok(t);
            assert(res->Ok_0 == t);
            assert(exists|b: Seq<u8>| b.len() == 512 && MbrPartitionTable::spec_valid(b)
                && #[trigger] MbrPartitionTable::spec_parsed_from(res->Ok_0, b));
            res
        },
        Err(e) => Err(MbrError::InvalidFormat(e)),
    }
}

} // verus!
