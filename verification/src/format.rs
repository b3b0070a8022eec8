//! On-disk FAT values and their parsers and serializers.
use vstd::prelude::*;
use vstd::string::StringSliceAdditionalSpecFns;

verus! {

/// Size in bytes of one directory entry.
pub const DIRECTORY_ENTRY_SIZE: usize = 32;

/// A malformed on-disk value.
#[derive(Clone, Copy, Debug, PartialEq, Eq, Structural)]
pub enum FormatError {
    BufferTooSmall,
    InvalidBootSignature,
    InvalidBytesPerSector,
    InvalidSectorsPerCluster,
    InvalidBpb,
    InvalidDirectoryEntry,
    InvalidFatEntry,
}

// ---------------------------------------------------------------------------
// Little-endian integer fields
// ---------------------------------------------------------------------------

/// The little-endian 16-bit value stored at `o`.
pub open spec fn spec_le16(b: Seq<u8>, o: int) -> int {
    b[o] + b[o + 1] * 256
}

/// The little-endian 32-bit value stored at `o`.
pub open spec fn spec_le32(b: Seq<u8>, o: int) -> int {
    spec_le16(b, o) + spec_le16(b, o + 2) * 65536
}

/// `b` with the little-endian encoding of `v` stored at `o`.
pub open spec fn spec_put16(b: Seq<u8>, o: int, v: u16) -> Seq<u8> {
    b.update(o, (v % 256) as u8).update(o + 1, (v / 256) as u8)
}

/// `b` with the little-endian encoding of `v` stored at `o`.
pub open spec fn spec_put32(b: Seq<u8>, o: int, v: u32) -> Seq<u8> {
    spec_put16(spec_put16(b, o, (v % 65536) as u16), o + 2, (v / 65536) as u16)
}

pub(crate) fn le16(bytes: &[u8], offset: usize) -> (r: u16)
    requires
        offset + 2 <= bytes@.len(),
    ensures
        r == spec_le16(bytes@, offset as int),
{
    bytes[offset] as u16 + (bytes[offset + 1] as u16) * 256
}

pub(crate) fn le32(bytes: &[u8], offset: usize) -> (r: u32)
    requires
        offset + 4 <= bytes@.len(),
    ensures
        r == spec_le32(bytes@, offset as int),
{
    assert(bytes@.len() == bytes.len());
    le16(bytes, offset) as u32 + (le16(bytes, offset + 2) as u32) * 65536
}

pub(crate) fn put16(bytes: &mut [u8], offset: usize, value: u16)
    requires
        offset + 2 <= old(bytes)@.len(),
    ensures
        final(bytes)@ == spec_put16(old(bytes)@, offset as int, value),
{
    bytes[offset] = (value % 256) as u8;
    bytes[offset + 1] = (value / 256) as u8;
}

pub(crate) fn put32(bytes: &mut [u8], offset: usize, value: u32)
    requires
        offset + 4 <= old(bytes)@.len(),
    ensures
        final(bytes)@ == spec_put32(old(bytes)@, offset as int, value),
{
    assert(bytes@.len() == bytes.len());
    put16(bytes, offset, (value % 65536) as u16);
    put16(bytes, offset + 2, (value / 65536) as u16);
}

/// Reading back a 16-bit field gives the value stored there.
pub proof fn lemma_le16_put16(b: Seq<u8>, o: int, v: u16)
    requires
        0 <= o,
        o + 2 <= b.len(),
    ensures
        spec_le16(spec_put16(b, o, v), o) == v,
        spec_put16(b, o, v).len() == b.len(),
        forall|i: int| 0 <= i < b.len() && i != o && i != o + 1 ==> #[trigger] spec_put16(b, o, v)[i] == b[i],
{
}

/// Reading back a 32-bit field gives the value stored there.
pub proof fn lemma_le32_put32(b: Seq<u8>, o: int, v: u32)
    requires
        0 <= o,
        o + 4 <= b.len(),
    ensures
        spec_le32(spec_put32(b, o, v), o) == v,
        spec_put32(b, o, v).len() == b.len(),
        forall|i: int| 0 <= i < b.len() && (i < o || o + 4 <= i) ==> #[trigger] spec_put32(b, o, v)[i] == b[i],
{
    let lo = (v % 65536) as u16;
    let hi = (v / 65536) as u16;
    lemma_le16_put16(b, o, lo);
    let b1 = spec_put16(b, o, lo);
    lemma_le16_put16(b1, o + 2, hi);
    let b2 = spec_put16(b1, o + 2, hi);
    assert(spec_le16(b2, o) == spec_le16(b1, o));
}

// ---------------------------------------------------------------------------
// BIOS parameter block
// ---------------------------------------------------------------------------

/// The BIOS parameter block of a FAT boot sector.
#[derive(Clone, Copy, Debug, PartialEq, Eq, Structural)]
pub struct Bpb {
    pub bytes_per_sector: u16,
    pub sectors_per_cluster: u8,
    pub reserved_sector_count: u16,
    pub fat_count: u8,
    pub root_entry_count: u16,
    pub total_sectors: u32,
    pub media: u8,
    pub sectors_per_fat_16: u16,
    pub sectors_per_track: u16,
    pub head_count: u16,
    pub hidden_sectors: u32,
    pub sectors_per_fat_32: u32,
    pub extended_flags: u16,
    pub root_cluster: u32,
    pub fs_info_sector: u16,
    pub backup_boot_sector: u16,
}

/// Sector sizes accepted in a BPB.
pub open spec fn valid_bytes_per_sector(v: int) -> bool {
    v == 512 || v == 1024 || v == 2048 || v == 4096
}

/// Cluster sizes (in sectors) accepted in a BPB: a non-zero power of two.
pub open spec fn valid_sectors_per_cluster(v: u8) -> bool {
    v == 1 || v == 2 || v == 4 || v == 8 || v == 16 || v == 32 || v == 64 || v == 128
}

/// The total sector count recorded in a boot sector: the 16-bit field unless it is zero.
pub open spec fn spec_total_sectors(b: Seq<u8>) -> int {
    if spec_le16(b, 19) == 0 {
        spec_le32(b, 32)
    } else {
        spec_le16(b, 19)
    }
}

/// The fields of a boot sector, read without validation.
pub open spec fn spec_bpb_fields(b: Seq<u8>) -> Bpb {
    let fat32 = spec_le16(b, 22) == 0;
    Bpb {
        bytes_per_sector: spec_le16(b, 11) as u16,
        sectors_per_cluster: b[13],
        reserved_sector_count: spec_le16(b, 14) as u16,
        fat_count: b[16],
        root_entry_count: spec_le16(b, 17) as u16,
        total_sectors: spec_total_sectors(b) as u32,
        media: b[21],
        sectors_per_fat_16: spec_le16(b, 22) as u16,
        sectors_per_track: spec_le16(b, 24) as u16,
        head_count: spec_le16(b, 26) as u16,
        hidden_sectors: spec_le32(b, 28) as u32,
        sectors_per_fat_32: if fat32 { spec_le32(b, 36) as u32 } else { 0 },
        extended_flags: if fat32 { spec_le16(b, 40) as u16 } else { 0 },
        root_cluster: if fat32 { spec_le32(b, 44) as u32 } else { 0 },
        fs_info_sector: if fat32 { spec_le16(b, 48) as u16 } else { 0 },
        backup_boot_sector: if fat32 { spec_le16(b, 50) as u16 } else { 0 },
    }
}

impl Bpb {
    /// The consistency checks that `parse` applies after reading the fields.
    pub open spec fn spec_counts_valid(self) -> bool {
        &&& self.reserved_sector_count != 0
        &&& self.fat_count != 0
        &&& self.total_sectors != 0
        &&& !(self.sectors_per_fat_16 == 0 && self.sectors_per_fat_32 == 0)
    }

    /// What `parse` returns for a byte buffer.
    pub open spec fn spec_parse(b: Seq<u8>) -> Result<Bpb, FormatError> {
        if b.len() < 512 {
            Err(FormatError::BufferTooSmall)
        } else if !(b[510] == 0x55 && b[511] == 0xaa) {
            Err(FormatError::InvalidBootSignature)
        } else if !valid_bytes_per_sector(spec_le16(b, 11)) {
            Err(FormatError::InvalidBytesPerSector)
        } else if !valid_sectors_per_cluster(b[13]) {
            Err(FormatError::InvalidSectorsPerCluster)
        } else if !spec_bpb_fields(b).spec_counts_valid() {
            Err(FormatError::InvalidBpb)
        } else {
            Ok(spec_bpb_fields(b))
        }
    }

    /// The 16-bit total-sector field written by `serialize_into`.
    pub open spec fn spec_total16(self) -> u16 {
        if self.total_sectors <= 0xffff {
            self.total_sectors as u16
        } else {
            0
        }
    }

    /// The boot sector `b` after `serialize_into` stores this BPB in it.
    pub open spec fn spec_serialized(self, b: Seq<u8>) -> Seq<u8> {
        let total16 = self.spec_total16();
        let b1 = spec_put16(b, 11, self.bytes_per_sector);
        let b2 = b1.update(13, self.sectors_per_cluster);
        let b3 = spec_put16(b2, 14, self.reserved_sector_count);
        let b4 = b3.update(16, self.fat_count);
        let b5 = spec_put16(b4, 17, self.root_entry_count);
        let b6 = spec_put16(b5, 19, total16);
        let b7 = b6.update(21, self.media);
        let b8 = spec_put16(b7, 22, self.sectors_per_fat_16);
        let b9 = spec_put16(b8, 24, self.sectors_per_track);
        let b10 = spec_put16(b9, 26, self.head_count);
        let b11 = spec_put32(b10, 28, self.hidden_sectors);
        let b12 = spec_put32(b11, 32, if total16 == 0 { self.total_sectors } else { 0 });
        let b13 = if self.sectors_per_fat_16 == 0 {
            let c1 = spec_put32(b12, 36, self.sectors_per_fat_32);
            let c2 = spec_put16(c1, 40, self.extended_flags);
            let c3 = spec_put32(c2, 44, self.root_cluster);
            let c4 = spec_put16(c3, 48, self.fs_info_sector);
            spec_put16(c4, 50, self.backup_boot_sector)
        } else {
            b12
        };
        b13.update(510, 0x55).update(511, 0xaa)
    }

    /// A BPB that `parse` accepts and reproduces exactly: every check of `parse` holds,
    /// and the FAT32 extension is zero unless the 16-bit FAT size is zero.
    pub open spec fn spec_round_trips(self) -> bool {
        &&& valid_bytes_per_sector(self.bytes_per_sector as int)
        &&& valid_sectors_per_cluster(self.sectors_per_cluster)
        &&& self.spec_counts_valid()
        &&& self.sectors_per_fat_16 != 0 ==> {
            &&& self.sectors_per_fat_32 == 0
            &&& self.extended_flags == 0
            &&& self.root_cluster == 0
            &&& self.fs_info_sector == 0
            &&& self.backup_boot_sector == 0
        }
    }

    /// Parses and validates the BPB of a boot sector.
    pub fn parse(bytes: &[u8]) -> (r: Result<Self, FormatError>)
        ensures
            r == Bpb::spec_parse(bytes@),
    {
        if bytes.len() < 512 {
            return Err(FormatError::BufferTooSmall);
        }
        if !(bytes[510] == 0x55 && bytes[511] == 0xaa) {
            return Err(FormatError::InvalidBootSignature);
        }
        let bytes_per_sector = le16(bytes, 11);
        if !(bytes_per_sector == 512 || bytes_per_sector == 1024 || bytes_per_sector == 2048
            || bytes_per_sector == 4096) {
            return Err(FormatError::InvalidBytesPerSector);
        }
        let sectors_per_cluster = bytes[13];
        if !(sectors_per_cluster == 1 || sectors_per_cluster == 2 || sectors_per_cluster == 4
            || sectors_per_cluster == 8 || sectors_per_cluster == 16 || sectors_per_cluster == 32
            || sectors_per_cluster == 64 || sectors_per_cluster == 128) {
            return Err(FormatError::InvalidSectorsPerCluster);
        }
        let total_sectors_16 = le16(bytes, 19) as u32;
        let total_sectors = if total_sectors_16 == 0 {
            le32(bytes, 32)
        } else {
            total_sectors_16
        };
        let sectors_per_fat_16 = le16(bytes, 22);
        let is_fat32_bpb = sectors_per_fat_16 == 0;
        let bpb = Bpb {
            bytes_per_sector,
            sectors_per_cluster,
            reserved_sector_count: le16(bytes, 14),
            fat_count: bytes[16],
            root_entry_count: le16(bytes, 17),
            total_sectors,
            media: bytes[21],
            sectors_per_fat_16,
            sectors_per_track: le16(bytes, 24),
            head_count: le16(bytes, 26),
            hidden_sectors: le32(bytes, 28),
            sectors_per_fat_32: if is_fat32_bpb { le32(bytes, 36) } else { 0 },
            extended_flags: if is_fat32_bpb { le16(bytes, 40) } else { 0 },
            root_cluster: if is_fat32_bpb { le32(bytes, 44) } else { 0 },
            fs_info_sector: if is_fat32_bpb { le16(bytes, 48) } else { 0 },
            backup_boot_sector: if is_fat32_bpb { le16(bytes, 50) } else { 0 },
        };
        if bpb.reserved_sector_count == 0 || bpb.fat_count == 0 || bpb.total_sectors == 0 || (
        bpb.sectors_per_fat_16 == 0 && bpb.sectors_per_fat_32 == 0) {
            return Err(FormatError::InvalidBpb);
        }
        Ok(bpb)
    }

    /// Updates the BPB fields in an existing boot-sector image.
    ///
    /// Fields outside the BPB, such as jump code and OEM name, are preserved.
    pub fn serialize_into(&self, bytes: &mut [u8]) -> (r: Result<(), FormatError>)
        ensures
            old(bytes)@.len() < 512 ==> r == Err::<(), FormatError>(FormatError::BufferTooSmall)
                && final(bytes)@ == old(bytes)@,
            old(bytes)@.len() >= 512 ==> r is Ok && final(bytes)@ == self.spec_serialized(old(bytes)@),
    {
        if bytes.len() < 512 {
            return Err(FormatError::BufferTooSmall);
        }
        put16(bytes, 11, self.bytes_per_sector);
        bytes[13] = self.sectors_per_cluster;
        put16(bytes, 14, self.reserved_sector_count);
        bytes[16] = self.fat_count;
        put16(bytes, 17, self.root_entry_count);
        let total16: u16 = if self.total_sectors <= 0xffff {
            self.total_sectors as u16
        } else {
            0
        };
        put16(bytes, 19, total16);
        bytes[21] = self.media;
        put16(bytes, 22, self.sectors_per_fat_16);
        put16(bytes, 24, self.sectors_per_track);
        put16(bytes, 26, self.head_count);
        put32(bytes, 28, self.hidden_sectors);
        put32(bytes, 32, if total16 == 0 { self.total_sectors } else { 0 });
        if self.sectors_per_fat_16 == 0 {
            put32(bytes, 36, self.sectors_per_fat_32);
            put16(bytes, 40, self.extended_flags);
            put32(bytes, 44, self.root_cluster);
            put16(bytes, 48, self.fs_info_sector);
            put16(bytes, 50, self.backup_boot_sector);
        }
        bytes[510] = 0x55;
        bytes[511] = 0xaa;
        Ok(())
    }
}

/// Storing a BPB with `serialize_into` and parsing the sector again gives back the same BPB,
/// for every BPB that satisfies the checks of `parse` and leaves the FAT32 extension zero
/// when it describes a FAT12/FAT16 volume.
pub proof fn lemma_bpb_round_trip(bpb: Bpb, b: Seq<u8>)
    requires
        b.len() >= 512,
        bpb.spec_round_trips(),
    ensures
        Bpb::spec_parse(bpb.spec_serialized(b)) == Ok::<Bpb, FormatError>(bpb),
{
    let total16 = bpb.spec_total16();
    let b1 = spec_put16(b, 11, bpb.bytes_per_sector);
    lemma_le16_put16(b, 11, bpb.bytes_per_sector);
    let b2 = b1.update(13, bpb.sectors_per_cluster);
    let b3 = spec_put16(b2, 14, bpb.reserved_sector_count);
    lemma_le16_put16(b2, 14, bpb.reserved_sector_count);
    let b4 = b3.update(16, bpb.fat_count);
    let b5 = spec_put16(b4, 17, bpb.root_entry_count);
    lemma_le16_put16(b4, 17, bpb.root_entry_count);
    let b6 = spec_put16(b5, 19, total16);
    lemma_le16_put16(b5, 19, total16);
    let b7 = b6.update(21, bpb.media);
    let b8 = spec_put16(b7, 22, bpb.sectors_per_fat_16);
    lemma_le16_put16(b7, 22, bpb.sectors_per_fat_16);
    let b9 = spec_put16(b8, 24, bpb.sectors_per_track);
    lemma_le16_put16(b8, 24, bpb.sectors_per_track);
    let b10 = spec_put16(b9, 26, bpb.head_count);
    lemma_le16_put16(b9, 26, bpb.head_count);
    let b11 = spec_put32(b10, 28, bpb.hidden_sectors);
    lemma_le32_put32(b10, 28, bpb.hidden_sectors);
    let t32: u32 = if total16 == 0 { bpb.total_sectors } else { 0 };
    let b12 = spec_put32(b11, 32, t32);
    lemma_le32_put32(b11, 32, t32);
    let c1 = spec_put32(b12, 36, bpb.sectors_per_fat_32);
    lemma_le32_put32(b12, 36, bpb.sectors_per_fat_32);
    let c2 = spec_put16(c1, 40, bpb.extended_flags);
    lemma_le16_put16(c1, 40, bpb.extended_flags);
    let c3 = spec_put32(c2, 44, bpb.root_cluster);
    lemma_le32_put32(c2, 44, bpb.root_cluster);
    let c4 = spec_put16(c3, 48, bpb.fs_info_sector);
    lemma_le16_put16(c3, 48, bpb.fs_info_sector);
    let c5 = spec_put16(c4, 50, bpb.backup_boot_sector);
    lemma_le16_put16(c4, 50, bpb.backup_boot_sector);
    let b13 = if bpb.sectors_per_fat_16 == 0 { c5 } else { b12 };
    let s = b13.update(510, 0x55).update(511, 0xaa);
    assert(s == bpb.spec_serialized(b));
    assert(spec_le16(s, 11) == spec_le16(b13, 11));
    assert(spec_le16(b12, 11) == bpb.bytes_per_sector);
    assert(spec_le16(s, 14) == bpb.reserved_sector_count);
    assert(spec_le16(s, 17) == bpb.root_entry_count);
    assert(spec_le16(s, 19) == total16);
    assert(spec_le16(s, 22) == bpb.sectors_per_fat_16);
    assert(spec_le16(s, 24) == bpb.sectors_per_track);
    assert(spec_le16(s, 26) == bpb.head_count);
    assert(spec_le32(s, 28) == bpb.hidden_sectors);
    assert(spec_le32(s, 32) == t32);
    assert(s[13] == bpb.sectors_per_cluster);
    assert(s[16] == bpb.fat_count);
    assert(s[21] == bpb.media);
    if bpb.sectors_per_fat_16 == 0 {
        assert(spec_le32(s, 36) == bpb.sectors_per_fat_32);
        assert(spec_le16(s, 40) == bpb.extended_flags);
        assert(spec_le32(s, 44) == bpb.root_cluster);
        assert(spec_le16(s, 48) == bpb.fs_info_sector);
        assert(spec_le16(s, 50) == bpb.backup_boot_sector);
    }
    assert(spec_total_sectors(s) == bpb.total_sectors);
    assert(spec_bpb_fields(s) == bpb);
}

/// `serialize_into` changes only the BPB area (bytes 11 through 35, also 36 through 51 when the
/// 16-bit FAT size is zero) and the boot signature; every other byte of the sector is kept.
pub proof fn lemma_bpb_serialize_preserves_other_bytes(bpb: Bpb, b: Seq<u8>, i: int)
    requires
        b.len() >= 512,
        0 <= i < b.len(),
        !(11 <= i < 36),
        !(bpb.sectors_per_fat_16 == 0 && 36 <= i < 52),
        i != 510,
        i != 511,
    ensures
        bpb.spec_serialized(b)[i] == b[i],
        bpb.spec_serialized(b).len() == b.len(),
{
    let total16 = bpb.spec_total16();
    let t32: u32 = if total16 == 0 { bpb.total_sectors } else { 0 };
    let b1 = spec_put16(b, 11, bpb.bytes_per_sector);
    lemma_le16_put16(b, 11, bpb.bytes_per_sector);
    let b2 = b1.update(13, bpb.sectors_per_cluster);
    let b3 = spec_put16(b2, 14, bpb.reserved_sector_count);
    lemma_le16_put16(b2, 14, bpb.reserved_sector_count);
    let b4 = b3.update(16, bpb.fat_count);
    let b5 = spec_put16(b4, 17, bpb.root_entry_count);
    lemma_le16_put16(b4, 17, bpb.root_entry_count);
    let b6 = spec_put16(b5, 19, total16);
    lemma_le16_put16(b5, 19, total16);
    let b7 = b6.update(21, bpb.media);
    let b8 = spec_put16(b7, 22, bpb.sectors_per_fat_16);
    lemma_le16_put16(b7, 22, bpb.sectors_per_fat_16);
    let b9 = spec_put16(b8, 24, bpb.sectors_per_track);
    lemma_le16_put16(b8, 24, bpb.sectors_per_track);
    let b10 = spec_put16(b9, 26, bpb.head_count);
    lemma_le16_put16(b9, 26, bpb.head_count);
    let b11 = spec_put32(b10, 28, bpb.hidden_sectors);
    lemma_le32_put32(b10, 28, bpb.hidden_sectors);
    let b12 = spec_put32(b11, 32, t32);
    lemma_le32_put32(b11, 32, t32);
    let c1 = spec_put32(b12, 36, bpb.sectors_per_fat_32);
    lemma_le32_put32(b12, 36, bpb.sectors_per_fat_32);
    let c2 = spec_put16(c1, 40, bpb.extended_flags);
    lemma_le16_put16(c1, 40, bpb.extended_flags);
    let c3 = spec_put32(c2, 44, bpb.root_cluster);
    lemma_le32_put32(c2, 44, bpb.root_cluster);
    let c4 = spec_put16(c3, 48, bpb.fs_info_sector);
    lemma_le16_put16(c3, 48, bpb.fs_info_sector);
    let c5 = spec_put16(c4, 50, bpb.backup_boot_sector);
    lemma_le16_put16(c4, 50, bpb.backup_boot_sector);
    assert(b12[i] == b[i]);
    if bpb.sectors_per_fat_16 == 0 {
        assert(c5[i] == b[i]);
    }
}

// ---------------------------------------------------------------------------
// Directory entries
// ---------------------------------------------------------------------------

/// One raw 32-byte directory entry.
#[derive(Clone, Copy, Debug, PartialEq, Eq)]
pub struct RawDirEntry(pub [u8; DIRECTORY_ENTRY_SIZE]);

/// ASCII upper case letters map to lower case; every other byte is kept.
pub open spec fn spec_ascii_lower(b: u8) -> u8 {
    if 0x41 <= b <= 0x5a {
        (b + 32) as u8
    } else {
        b
    }
}

impl RawDirEntry {
    pub const ATTR_READ_ONLY: u8 = 0x01;
    pub const ATTR_VOLUME_ID: u8 = 0x08;
    pub const ATTR_DIRECTORY: u8 = 0x10;
    pub const ATTR_LONG_NAME: u8 = 0x0f;

    /// The bytes of the entry.
    pub open spec fn bytes(self) -> Seq<u8> {
        self.0@
    }

    /// The entry that `new` builds: the name, the attribute byte, and zeros.
    pub open spec fn spec_new(name: ShortName, attributes: u8) -> Seq<u8> {
        Seq::new(
            32,
            |i: int|
                if i < 11 {
                    name.0@[i]
                } else if i == 11 {
                    attributes
                } else {
                    0u8
                },
        )
    }

    pub open spec fn spec_is_end(self) -> bool {
        self.0@[0] == 0
    }

    pub open spec fn spec_is_deleted(self) -> bool {
        self.0@[0] == 0xe5
    }

    pub open spec fn spec_is_lfn(self) -> bool {
        self.0@[11] == 0x0f
    }

    pub open spec fn spec_is_directory(self) -> bool {
        self.0@[11] & 0x10 != 0
    }

    pub open spec fn spec_is_volume_label(self) -> bool {
        self.0@[11] & 0x08 != 0
    }

    pub open spec fn spec_first_cluster(self) -> int {
        spec_le16(self.0@, 20) * 65536 + spec_le16(self.0@, 26)
    }

    /// The first-cluster fields after `set_first_cluster(fat_type, cluster)`.
    pub open spec fn spec_with_first_cluster(b: Seq<u8>, fat_type: FatType, cluster: Option<u32>) -> Seq<u8> {
        let c: u32 = match cluster {
            Some(c) => c,
            None => 0,
        };
        let high: u16 = if fat_type == FatType::Fat32 {
            ((c % 0x1000_0000) / 65536) as u16
        } else {
            0
        };
        spec_put16(spec_put16(b, 20, high), 26, (c % 65536) as u16)
    }

    /// Copies the first 32 bytes of `bytes` into an entry.
    pub fn parse(bytes: &[u8]) -> (r: Result<Self, FormatError>)
        ensures
            bytes@.len() < 32 ==> r == Err::<RawDirEntry, FormatError>(FormatError::BufferTooSmall),
            bytes@.len() >= 32 ==> r is Ok && r->Ok_0.0@ == bytes@.subrange(0, 32),
    {
        if bytes.len() < DIRECTORY_ENTRY_SIZE {
            return Err(FormatError::BufferTooSmall);
        }
        let mut data = [0u8; DIRECTORY_ENTRY_SIZE];
        let mut i: usize = 0;
        while i < DIRECTORY_ENTRY_SIZE
            invariant
                i <= 32,
                bytes@.len() >= 32,
                data@.len() == 32,
                forall|j: int| 0 <= j < i ==> data@[j] == bytes@[j],
            decreases 32 - i,
        {
            data[i] = bytes[i];
            i = i + 1;
        }
        assert(data@ == bytes@.subrange(0, 32));
        Ok(RawDirEntry(data))
    }

    pub fn serialize(self) -> (r: [u8; DIRECTORY_ENTRY_SIZE])
        ensures
            r@ == self.0@,
    {
        self.0
    }

    pub fn is_end(&self) -> (r: bool)
        ensures
            r == self.spec_is_end(),
    {
        self.0[0] == 0
    }

    pub fn is_deleted(&self) -> (r: bool)
        ensures
            r == self.spec_is_deleted(),
    {
        self.0[0] == 0xe5
    }

    pub fn attributes(&self) -> (r: u8)
        ensures
            r == self.0@[11],
    {
        self.0[11]
    }

    pub fn is_lfn(&self) -> (r: bool)
        ensures
            r == self.spec_is_lfn(),
    {
        self.attributes() == Self::ATTR_LONG_NAME
    }

    pub fn is_directory(&self) -> (r: bool)
        ensures
            r == self.spec_is_directory(),
    {
        self.attributes() & Self::ATTR_DIRECTORY != 0
    }

    pub fn is_volume_label(&self) -> (r: bool)
        ensures
            r == self.spec_is_volume_label(),
    {
        self.attributes() & Self::ATTR_VOLUME_ID != 0
    }

    pub fn short_name(&self) -> (r: ShortName)
        ensures
            r.0@ == self.0@.subrange(0, 11),
    {
        let b = &self.0;
        let r = ShortName([b[0], b[1], b[2], b[3], b[4], b[5], b[6], b[7], b[8], b[9], b[10]]);
        assert(r.0@ == self.0@.subrange(0, 11));
        r
    }

    pub fn first_cluster_high(&self) -> (r: u16)
        ensures
            r == spec_le16(self.0@, 20),
    {
        self.0[20] as u16 + (self.0[21] as u16) * 256
    }

    pub fn first_cluster_low(&self) -> (r: u16)
        ensures
            r == spec_le16(self.0@, 26),
    {
        self.0[26] as u16 + (self.0[27] as u16) * 256
    }

    pub fn first_cluster(&self) -> (r: u32)
        ensures
            r == self.spec_first_cluster(),
    {
        (self.first_cluster_high() as u32) * 65536 + self.first_cluster_low() as u32
    }

    pub fn file_size(&self) -> (r: u32)
        ensures
            r == spec_le32(self.0@, 28),
    {
        let low = self.0[28] as u32 + (self.0[29] as u32) * 256;
        let high = self.0[30] as u32 + (self.0[31] as u32) * 256;
        low + high * 65536
    }

    /// A short entry with the given name and attributes and every other field zero.
    pub fn new(name: ShortName, attributes: u8) -> (r: Self)
        ensures
            r.0@ == RawDirEntry::spec_new(name, attributes),
    {
        let mut raw = [0u8; DIRECTORY_ENTRY_SIZE];
        let mut i: usize = 0;
        while i < 32
            invariant
                i <= 32,
                raw@.len() == 32,
                forall|j: int| 0 <= j < i ==> raw@[j] == RawDirEntry::spec_new(name, attributes)[j],
            decreases 32 - i,
        {
            raw[i] = if i < 11 {
                name.0[i]
            } else if i == 11 {
                attributes
            } else {
                0
            };
            i = i + 1;
        }
        assert(raw@ == RawDirEntry::spec_new(name, attributes));
        RawDirEntry(raw)
    }

    /// Stores a first cluster; the high half is kept only on FAT32.
    pub fn set_first_cluster(&mut self, fat_type: FatType, cluster: Option<u32>)
        ensures
            final(self).0@ == RawDirEntry::spec_with_first_cluster(old(self).0@, fat_type, cluster),
    {
        let cluster = match cluster {
            Some(c) => c,
            None => 0,
        };
        let high: u16 = if fat_type == FatType::Fat32 {
            ((cluster % 0x1000_0000) / 65536) as u16
        } else {
            0
        };
        let low = (cluster % 65536) as u16;
        self.0[20] = (high % 256) as u8;
        self.0[21] = (high / 256) as u8;
        self.0[26] = (low % 256) as u8;
        self.0[27] = (low / 256) as u8;
    }

    pub fn set_file_size(&mut self, size: u32)
        ensures
            final(self).0@ == spec_put32(old(self).0@, 28, size),
    {
        let low = (size % 65536) as u16;
        let high = (size / 65536) as u16;
        self.0[28] = (low % 256) as u8;
        self.0[29] = (low / 256) as u8;
        self.0[30] = (high % 256) as u8;
        self.0[31] = (high / 256) as u8;
    }
}

/// A stored file size reads back unchanged.
pub proof fn lemma_file_size_round_trip(entry: RawDirEntry, size: u32)
    ensures
        spec_le32(spec_put32(entry.0@, 28, size), 28) == size,
{
    lemma_le32_put32(entry.0@, 28, size);
}

/// A stored first cluster reads back unchanged on FAT32 (for a value below 2^28), and
/// as its low 16 bits on FAT12/FAT16.
pub proof fn lemma_first_cluster_round_trip(entry: RawDirEntry, fat_type: FatType, cluster: u32)
    requires
        fat_type == FatType::Fat32 ==> cluster < 0x1000_0000,
    ensures
        ({
            let e = RawDirEntry(entry.0);
            let b = RawDirEntry::spec_with_first_cluster(entry.0@, fat_type, Some(cluster));
            &&& fat_type == FatType::Fat32 ==> spec_le16(b, 20) * 65536 + spec_le16(b, 26) == cluster
            &&& fat_type != FatType::Fat32 ==> spec_le16(b, 26) == cluster % 65536
                && spec_le16(b, 20) == 0
        }),
{
    let c = cluster;
    let high: u16 = if fat_type == FatType::Fat32 {
        ((c % 0x1000_0000) / 65536) as u16
    } else {
        0
    };
    let b1 = spec_put16(entry.0@, 20, high);
    lemma_le16_put16(entry.0@, 20, high);
    lemma_le16_put16(b1, 26, (c % 65536) as u16);
}

// ---------------------------------------------------------------------------
// Long-name entries
// ---------------------------------------------------------------------------

/// A parsed long-file-name directory entry.
#[derive(Clone, Copy, Debug, PartialEq, Eq)]
pub struct LfnEntry {
    pub ordinal: u8,
    pub is_last: bool,
    pub checksum: u8,
    pub characters: [u16; 13],
}

/// Byte offset of the `k`-th UTF-16 code unit in a long-name entry.
pub open spec fn spec_lfn_offset(k: int) -> int {
    if k < 5 {
        1 + 2 * k
    } else if k < 11 {
        14 + 2 * (k - 5)
    } else {
        28 + 2 * (k - 11)
    }
}

fn lfn_character_offset(k: usize) -> (r: usize)
    requires
        k < 13,
    ensures
        r == spec_lfn_offset(k as int),
        r + 2 <= 32,
{
    if k < 5 {
        1 + 2 * k
    } else if k < 11 {
        14 + 2 * (k - 5)
    } else {
        28 + 2 * (k - 11)
    }
}

/// Byte `i` of the serialized long-name entry `e`.
pub open spec fn spec_lfn_byte(e: LfnEntry, i: int) -> u8 {
    if i == 0 {
        e.ordinal | (if e.is_last { 0x40u8 } else { 0u8 })
    } else if i == 11 {
        0x0f
    } else if i == 12 {
        0
    } else if i == 13 {
        e.checksum
    } else if i == 26 || i == 27 {
        0
    } else {
        let k = if i < 11 {
            (i - 1) / 2
        } else if i < 26 {
            5 + (i - 14) / 2
        } else {
            11 + (i - 28) / 2
        };
        let c = e.characters@[k];
        if i == spec_lfn_offset(k) {
            (c % 256) as u8
        } else {
            (c / 256) as u8
        }
    }
}

impl LfnEntry {
    /// Whether `parse` accepts a raw entry.
    pub open spec fn spec_parse_ok(raw: RawDirEntry) -> bool {
        &&& raw.spec_is_lfn()
        &&& raw.0@[0] & 0x1f != 0
        &&& raw.0@[0] & 0x1f <= 20
        &&& raw.0@[12] == 0
        &&& spec_le16(raw.0@, 26) == 0
    }

    pub fn parse(raw: RawDirEntry) -> (r: Result<Self, FormatError>)
        ensures
            !LfnEntry::spec_parse_ok(raw) ==> r == Err::<LfnEntry, FormatError>(
                FormatError::InvalidDirectoryEntry,
            ),
            LfnEntry::spec_parse_ok(raw) ==> r is Ok && ({
                let e = r->Ok_0;
                &&& e.ordinal == raw.0@[0] & 0x1f
                &&& e.is_last == (raw.0@[0] & 0x40 != 0)
                &&& e.checksum == raw.0@[13]
                &&& e.characters@ == Seq::new(
                    13,
                    |k: int| spec_le16(raw.0@, spec_lfn_offset(k)) as u16,
                )
            }),
    {
        if !raw.is_lfn() || raw.0[0] & 0x1f == 0 || raw.0[0] & 0x1f > 20 || raw.0[12] != 0
            || raw.0[26] as u16 + (raw.0[27] as u16) * 256 != 0 {
            return Err(FormatError::InvalidDirectoryEntry);
        }
        let mut characters = [0u16; 13];
        let mut k: usize = 0;
        while k < 13
            invariant
                k <= 13,
                characters@.len() == 13,
                forall|j: int| 0 <= j < k ==> characters@[j] == spec_le16(raw.0@, spec_lfn_offset(j)),
            decreases 13 - k,
        {
            let offset = lfn_character_offset(k);
            characters[k] = raw.0[offset] as u16 + (raw.0[offset + 1] as u16) * 256;
            k = k + 1;
        }
        assert(characters@ == Seq::new(13, |k: int| spec_le16(raw.0@, spec_lfn_offset(k)) as u16));
        Ok(LfnEntry {
            ordinal: raw.0[0] & 0x1f,
            is_last: raw.0[0] & 0x40 != 0,
            checksum: raw.0[13],
            characters,
        })
    }

    pub fn serialize(self) -> (r: Result<RawDirEntry, FormatError>)
        ensures
            (self.ordinal == 0 || self.ordinal > 20) ==> r == Err::<RawDirEntry, FormatError>(
                FormatError::InvalidDirectoryEntry,
            ),
            !(self.ordinal == 0 || self.ordinal > 20) ==> r is Ok && r->Ok_0.0@ == Seq::new(
                32,
                |i: int| spec_lfn_byte(self, i),
            ),
    {
        if self.ordinal == 0 || self.ordinal > 20 {
            return Err(FormatError::InvalidDirectoryEntry);
        }
        let mut raw = [0xffu8; DIRECTORY_ENTRY_SIZE];
        raw[0] = self.ordinal | if self.is_last { 0x40u8 } else { 0u8 };
        raw[11] = RawDirEntry::ATTR_LONG_NAME;
        raw[12] = 0;
        raw[13] = self.checksum;
        raw[26] = 0;
        raw[27] = 0;
        let mut k: usize = 0;
        while k < 13
            invariant
                k <= 13,
                raw@.len() == 32,
                forall|i: int|
                    0 <= i < 32 && (i == 0 || i == 11 || i == 12 || i == 13 || i == 26 || i == 27)
                        ==> raw@[i] == spec_lfn_byte(self, i),
                forall|j: int, i: int|
                    0 <= j < k && (i == spec_lfn_offset(j) || i == spec_lfn_offset(j) + 1)
                        ==> raw@[i] == spec_lfn_byte(self, i),
            decreases 13 - k,
        {
            let offset = lfn_character_offset(k);
            let c = self.characters[k];
            raw[offset] = (c % 256) as u8;
            raw[offset + 1] = (c / 256) as u8;
            k = k + 1;
        }
        assert forall|i: int| 0 <= i < 32 implies raw@[i] == spec_lfn_byte(self, i) by {
            if !(i == 0 || i == 11 || i == 12 || i == 13 || i == 26 || i == 27) {
                let j = if i < 11 {
                    (i - 1) / 2
                } else if i < 26 {
                    5 + (i - 14) / 2
                } else {
                    11 + (i - 28) / 2
                };
                assert(i == spec_lfn_offset(j) || i == spec_lfn_offset(j) + 1);
            }
        }
        assert(raw@ == Seq::new(32, |i: int| spec_lfn_byte(self, i)));
        Ok(RawDirEntry(raw))
    }
}

/// Serializing a long-name entry with an ordinal in 1..=20 and parsing it again gives back
/// the same entry.
pub proof fn lemma_lfn_round_trip(e: LfnEntry, raw: RawDirEntry)
    requires
        1 <= e.ordinal <= 20,
        raw.0@ == Seq::new(32, |i: int| spec_lfn_byte(e, i)),
    ensures
        LfnEntry::spec_parse_ok(raw),
        raw.0@[0] & 0x1f == e.ordinal,
        (raw.0@[0] & 0x40 != 0) == e.is_last,
        raw.0@[13] == e.checksum,
        Seq::new(13, |k: int| spec_le16(raw.0@, spec_lfn_offset(k)) as u16) == e.characters@,
{
    let o = e.ordinal;
    assert(o <= 20 ==> (o | 0x40u8) & 0x1f == o && (o | 0x40u8) & 0x40 != 0) by (bit_vector);
    assert(o <= 20 ==> (o | 0u8) & 0x1f == o && (o | 0u8) & 0x40 == 0) by (bit_vector);
    assert(raw.0@[0] == spec_lfn_byte(e, 0));
    assert(raw.0@[11] == 0x0f);
    assert(raw.0@[12] == 0);
    assert(raw.0@[26] == 0 && raw.0@[27] == 0);
    assert forall|k: int| 0 <= k < 13 implies spec_le16(raw.0@, spec_lfn_offset(k)) as u16 == e.characters@[k] by {
        let off = spec_lfn_offset(k);
        assert(raw.0@[off] == spec_lfn_byte(e, off));
        assert(raw.0@[off + 1] == spec_lfn_byte(e, off + 1));
    }
    assert(Seq::new(13, |k: int| spec_le16(raw.0@, spec_lfn_offset(k)) as u16) =~= e.characters@);
}

// ---------------------------------------------------------------------------
// Short names
// ---------------------------------------------------------------------------

/// An 8.3 short name as stored in a directory entry, padded with spaces.
#[derive(Clone, Copy, Debug, PartialEq, Eq)]
pub struct ShortName(pub [u8; 11]);

/// One step of the short-name checksum: rotate right by one bit, then add the byte.
pub open spec fn spec_checksum_step(sum: u8, byte: u8) -> u8 {
    ((sum / 2 + (sum % 2) * 128 + byte) % 256) as u8
}

/// The checksum of a byte sequence, folded from the first byte.
pub open spec fn spec_checksum(s: Seq<u8>) -> u8
    decreases s.len(),
{
    if s.len() == 0 {
        0
    } else {
        spec_checksum_step(spec_checksum(s.drop_last()), s.last())
    }
}

/// `raw` up to its first space.
pub open spec fn spec_trim_at_space(raw: Seq<u8>) -> Seq<u8> {
    if exists|i: int| 0 <= i < raw.len() && raw[i] == 0x20 {
        raw.subrange(0, spec_first_index_of(raw, 0x20))
    } else {
        raw
    }
}

/// The first index at which `b` occurs in `s`.
pub open spec fn spec_first_index_of(s: Seq<u8>, b: u8) -> int {
    choose|i: int| 0 <= i < s.len() && s[i] == b && forall|j: int| 0 <= j < i ==> s[j] != b
}

/// A byte that occurs in a sequence has a first occurrence.
pub proof fn lemma_first_occurrence(s: Seq<u8>, b: u8, i: int)
    requires
        0 <= i < s.len(),
        s[i] == b,
    ensures
        exists|k: int| 0 <= k < s.len() && s[k] == b && forall|j: int| 0 <= j < k ==> s[j] != b,
    decreases i,
{
    if exists|j: int| 0 <= j < i && s[j] == b {
        let j = choose|j: int| 0 <= j < i && s[j] == b;
        lemma_first_occurrence(s, b, j);
    } else {
        assert(forall|j: int| 0 <= j < i ==> s[j] != b);
    }
}

/// The first occurrence of a byte that occurs in a sequence.
pub proof fn lemma_first_index_of(s: Seq<u8>, b: u8)
    requires
        spec_contains(s, b),
    ensures
        0 <= spec_first_index_of(s, b) < s.len(),
        s[spec_first_index_of(s, b)] == b,
        forall|j: int| 0 <= j < spec_first_index_of(s, b) ==> s[j] != b,
{
    let i = choose|i: int| 0 <= i < s.len() && s[i] == b;
    lemma_first_occurrence(s, b, i);
}

/// Two byte strings that are equal up to ASCII case.
pub open spec fn spec_eq_ignore_ascii_case(a: Seq<u8>, b: Seq<u8>) -> bool {
    a.len() == b.len() && forall|i: int| 0 <= i < a.len() ==> spec_ascii_lower(#[trigger] a[i]) == spec_ascii_lower(b[i])
}

/// Whether a space-padded name field matches a name component, ignoring ASCII case.
pub open spec fn spec_component_matches(raw: Seq<u8>, value: Seq<u8>) -> bool {
    spec_eq_ignore_ascii_case(spec_trim_at_space(raw), value)
}

/// Whether `n` contains the byte `b`.
pub open spec fn spec_contains(n: Seq<u8>, b: u8) -> bool {
    exists|i: int| 0 <= i < n.len() && n[i] == b
}

/// The last index at which `b` occurs in `s`.
pub open spec fn spec_last_index_of(s: Seq<u8>, b: u8) -> int {
    choose|i: int| 0 <= i < s.len() && s[i] == b && forall|j: int| i < j < s.len() ==> s[j] != b
}

/// A name split at its last dot into base and extension (the extension is empty without a dot).
pub open spec fn spec_split_extension(n: Seq<u8>) -> (Seq<u8>, Seq<u8>) {
    if spec_contains(n, 0x2e) {
        let d = spec_last_index_of(n, 0x2e);
        (n.subrange(0, d), n.subrange(d + 1, n.len() as int))
    } else {
        (n, Seq::empty())
    }
}

/// Whether a short name matches the UTF-8 bytes of a name component.
pub open spec fn spec_short_name_matches(short: Seq<u8>, n: Seq<u8>) -> bool {
    if n == seq![0x2eu8] || n == seq![0x2eu8, 0x2eu8] {
        spec_component_matches(short.subrange(0, 8), n) && short[8] == 0x20 && short[9] == 0x20
            && short[10] == 0x20
    } else {
        let (base, extension) = spec_split_extension(n);
        spec_component_matches(short.subrange(0, 8), base) && spec_component_matches(
            short.subrange(8, 11),
            extension,
        )
    }
}

fn ascii_lower(b: u8) -> (r: u8)
    ensures
        r == spec_ascii_lower(b),
{
    if 0x41 <= b && b <= 0x5a {
        b + 32
    } else {
        b
    }
}

/// Position of the first `byte` in `s`, or `None`.
pub(crate) fn first_index_of(s: &[u8], start: usize, end: usize, byte: u8) -> (r: Option<usize>)
    requires
        start <= end <= s@.len(),
    ensures
        match r {
            Some(i) => start <= i < end && s@[i as int] == byte && forall|j: int|
                start <= j < i ==> s@[j] != byte,
            None => forall|j: int| start <= j < end ==> s@[j] != byte,
        },
{
    let mut i = start;
    while i < end
        invariant
            start <= i <= end <= s@.len(),
            forall|j: int| start <= j < i ==> s@[j] != byte,
        decreases end - i,
    {
        if s[i] == byte {
            return Some(i);
        }
        i = i + 1;
    }
    None
}

/// Position of the last `byte` in `s[start..end]`, or `None`.
pub(crate) fn last_index_of(s: &[u8], start: usize, end: usize, byte: u8) -> (r: Option<usize>)
    requires
        start <= end <= s@.len(),
    ensures
        match r {
            Some(i) => start <= i < end && s@[i as int] == byte && forall|j: int|
                i < j < end ==> s@[j] != byte,
            None => forall|j: int| start <= j < end ==> s@[j] != byte,
        },
{
    let mut i = end;
    while i > start
        invariant
            start <= i <= end <= s@.len(),
            forall|j: int| i <= j < end ==> s@[j] != byte,
        decreases i - start,
    {
        if s[i - 1] == byte {
            return Some(i - 1);
        }
        i = i - 1;
    }
    None
}

/// End of `raw[start..end]` cut at its first space.
fn trimmed_end(raw: &[u8], start: usize, end: usize) -> (r: usize)
    requires
        start <= end <= raw@.len(),
    ensures
        start <= r <= end,
        raw@.subrange(start as int, r as int) == spec_trim_at_space(raw@.subrange(start as int, end as int)),
{
    let ghost r_seq = raw@.subrange(start as int, end as int);
    match first_index_of(raw, start, end, 0x20) {
        Some(i) => {
            proof {
                assert(r_seq[i - start] == 0x20);
                let f = spec_first_index_of(r_seq, 0x20);
                assert(0 <= f < r_seq.len() && r_seq[f] == 0x20 && forall|j: int| 0 <= j < f ==> r_seq[j] != 0x20);
                if f < i - start {
                    assert(raw@[start + f] == 0x20);
                }
                if f > i - start {
                    assert(r_seq[i - start] != 0x20);
                }
                assert(raw@.subrange(start as int, i as int) == r_seq.subrange(0, f));
            }
            i
        },
        None => {
            proof {
                if exists|j: int| 0 <= j < r_seq.len() && r_seq[j] == 0x20 {
                    let j = choose|j: int| 0 <= j < r_seq.len() && r_seq[j] == 0x20;
                    assert(raw@[start + j] == 0x20);
                }
            }
            end
        },
    }
}

/// Whether `raw[raw_start..raw_end]`, cut at its first space, equals `value[vs..ve]` ignoring ASCII case.
fn component_matches(raw: &[u8], raw_start: usize, raw_end: usize, value: &[u8], vs: usize, ve: usize) -> (r: bool)
    requires
        raw_start <= raw_end <= raw@.len(),
        vs <= ve <= value@.len(),
    ensures
        r == spec_component_matches(
            raw@.subrange(raw_start as int, raw_end as int),
            value@.subrange(vs as int, ve as int),
        ),
{
    let ghost v_seq = value@.subrange(vs as int, ve as int);
    let end = trimmed_end(raw, raw_start, raw_end);
    let ghost t = raw@.subrange(raw_start as int, end as int);
    if end - raw_start != ve - vs {
        return false;
    }
    let mut i: usize = 0;
    while i < end - raw_start
        invariant
            raw_start <= end <= raw_end <= raw@.len(),
            vs <= ve <= value@.len(),
            end - raw_start == ve - vs,
            i <= end - raw_start,
            t == raw@.subrange(raw_start as int, end as int),
            t == spec_trim_at_space(raw@.subrange(raw_start as int, raw_end as int)),
            v_seq == value@.subrange(vs as int, ve as int),
            forall|j: int| 0 <= j < i ==> spec_ascii_lower(#[trigger] t[j]) == spec_ascii_lower(v_seq[j]),
        decreases end - raw_start - i,
    {
        assert(t[i as int] == raw@[raw_start + i]);
        assert(v_seq[i as int] == value@[vs + i]);
        if ascii_lower(raw[raw_start + i]) != ascii_lower(value[vs + i]) {
            assert(spec_ascii_lower(t[i as int]) != spec_ascii_lower(v_seq[i as int]));
            assert(!spec_eq_ignore_ascii_case(t, v_seq));
            return false;
        }
        i = i + 1;
    }
    true
}

impl ShortName {
    /// The checksum stored in the long-name entries that belong to this short name.
    pub fn checksum(self) -> (r: u8)
        ensures
            r == spec_checksum(self.0@),
    {
        let mut sum: u8 = 0;
        let mut i: usize = 0;
        while i < 11
            invariant
                i <= 11,
                sum == spec_checksum(self.0@.subrange(0, i as int)),
            decreases 11 - i,
        {
            assert(self.0@.subrange(0, i + 1).drop_last() == self.0@.subrange(0, i as int));
            let rotated: u8 = sum / 2 + (sum % 2) * 128;
            sum = ((rotated as u16 + self.0[i] as u16) % 256) as u8;
            i = i + 1;
        }
        assert(self.0@.subrange(0, 11) == self.0@);
        sum
    }

    /// Whether this short name matches a name component, ignoring ASCII case.
    ///
    /// `.` and `..` match only a short name with an empty extension; any other name is split at
    /// its last dot into base and extension.
    pub fn matches(&self, name: &str) -> (r: bool)
        ensures
            r == spec_short_name_matches(self.0@, name.spec_bytes()),
    {
        self.matches_bytes(name.as_bytes())
    }

    /// Whether this short name matches the UTF-8 bytes of a name component.
    pub(crate) fn matches_bytes(&self, n: &[u8]) -> (r: bool)
        ensures
            r == spec_short_name_matches(self.0@, n@),
    {
        let len = n.len();
        let raw = self.0.as_slice();
        if (len == 1 && n[0] == 0x2e) || (len == 2 && n[0] == 0x2e && n[1] == 0x2e) {
            proof {
                if len == 1 {
                    assert(n@ == seq![0x2eu8]);
                } else {
                    assert(n@ == seq![0x2eu8, 0x2eu8]);
                }
            }
            return component_matches(raw, 0, 8, n, 0, len) && raw[8] == 0x20 && raw[9] == 0x20
                && raw[10] == 0x20;
        }
        proof {
            if n@ == seq![0x2eu8] {
                assert(len == 1 && n@[0] == 0x2e);
            }
            if n@ == seq![0x2eu8, 0x2eu8] {
                assert(len == 2 && n@[0] == 0x2e && n@[1] == 0x2e);
            }
        }
        match last_index_of(n, 0, len, 0x2e) {
            Some(d) => {
                proof {
                    assert(spec_contains(n@, 0x2e));
                    let l = spec_last_index_of(n@, 0x2e);
                    assert(l == d as int) by {
                        if l < d {
                        } else if l > d {
                        }
                    }
                }
                component_matches(raw, 0, 8, n, 0, d) && component_matches(raw, 8, 11, n, d + 1, len)
            },
            None => {
                proof {
                    assert(!spec_contains(n@, 0x2e));
                    assert(n@.subrange(0, len as int) == n@);
                    assert(n@.subrange(len as int, len as int) == Seq::<u8>::empty());
                }
                component_matches(raw, 0, 8, n, 0, len) && component_matches(raw, 8, 11, n, len, len)
            },
        }
    }
}

// ---------------------------------------------------------------------------
// FAT entries
// ---------------------------------------------------------------------------

/// The FAT variant of a volume.
#[derive(Clone, Copy, Debug, PartialEq, Eq, Structural)]
pub enum FatType {
    Fat12,
    Fat16,
    Fat32,
}

/// The meaning of one FAT entry.
#[derive(Clone, Copy, Debug, PartialEq, Eq, Structural)]
pub enum FatEntry {
    Free,
    Data(u32),
    Bad,
    EndOfChain,
    Reserved(u32),
}

/// The bad-cluster marker of a FAT type.
pub open spec fn spec_bad_marker(t: FatType) -> u32 {
    match t {
        FatType::Fat12 => 0x0ff7,
        FatType::Fat16 => 0xfff7,
        FatType::Fat32 => 0x0fff_fff7,
    }
}

/// The smallest end-of-chain value of a FAT type.
pub open spec fn spec_eoc_marker(t: FatType) -> u32 {
    match t {
        FatType::Fat12 => 0x0ff8,
        FatType::Fat16 => 0xfff8,
        FatType::Fat32 => 0x0fff_fff8,
    }
}

/// The first reserved value of a FAT type; data clusters lie below it.
pub open spec fn spec_reserved_marker(t: FatType) -> u32 {
    match t {
        FatType::Fat12 => 0x0ff0,
        FatType::Fat16 => 0xfff0,
        FatType::Fat32 => 0x0fff_fff0,
    }
}

/// The largest value an entry of a FAT type can hold.
pub open spec fn spec_entry_mask(t: FatType) -> u32 {
    match t {
        FatType::Fat12 => 0x0fff,
        FatType::Fat16 => 0xffff,
        FatType::Fat32 => 0x0fff_ffff,
    }
}

/// Number of FAT bytes read or written for one entry.
pub open spec fn spec_entry_width(t: FatType) -> int {
    match t {
        FatType::Fat32 => 4,
        _ => 2,
    }
}

fn fat_markers(fat_type: FatType) -> (r: (u32, u32, u32))
    ensures
        r == (spec_bad_marker(fat_type), spec_eoc_marker(fat_type), spec_reserved_marker(fat_type)),
{
    match fat_type {
        FatType::Fat12 => (0x0ff7, 0x0ff8, 0x0ff0),
        FatType::Fat16 => (0xfff7, 0xfff8, 0xfff0),
        FatType::Fat32 => (0x0fff_fff7, 0x0fff_fff8, 0x0fff_fff0),
    }
}

/// The raw entry value stored in `b` (the entry's bytes, starting at the first byte that holds it).
pub open spec fn spec_raw_entry_value(t: FatType, cluster: u32, b: Seq<u8>) -> int {
    match t {
        FatType::Fat12 => if cluster % 2 == 0 {
            spec_le16(b, 0) % 4096
        } else {
            spec_le16(b, 0) / 16
        },
        FatType::Fat16 => spec_le16(b, 0),
        FatType::Fat32 => spec_le32(b, 0) % 0x1000_0000,
    }
}

/// The meaning of a raw entry value.
pub open spec fn spec_classify(t: FatType, value: u32) -> FatEntry {
    if value == 0 {
        FatEntry::Free
    } else if 2 <= value < spec_reserved_marker(t) {
        FatEntry::Data(value)
    } else if value == spec_bad_marker(t) {
        FatEntry::Bad
    } else if value >= spec_eoc_marker(t) {
        FatEntry::EndOfChain
    } else {
        FatEntry::Reserved(value)
    }
}

impl FatEntry {
    /// What `parse` returns.
    pub open spec fn spec_parse(t: FatType, cluster: u32, b: Seq<u8>) -> Result<FatEntry, FormatError> {
        if b.len() < spec_entry_width(t) {
            Err(FormatError::BufferTooSmall)
        } else {
            Ok(spec_classify(t, spec_raw_entry_value(t, cluster, b) as u32))
        }
    }

    /// The raw value `serialize_into` stores, or `None` for an entry it refuses.
    pub open spec fn spec_value(self, t: FatType) -> Option<u32> {
        match self {
            FatEntry::Free => Some(0),
            FatEntry::Data(v) => if 2 <= v < spec_reserved_marker(t) {
                Some(v)
            } else {
                None
            },
            FatEntry::Bad => Some(spec_bad_marker(t)),
            FatEntry::EndOfChain => Some(spec_entry_mask(t)),
            FatEntry::Reserved(v) => if v <= spec_entry_mask(t) {
                Some(v)
            } else {
                None
            },
        }
    }

    /// The entry's bytes after `value` is merged into the old bytes `b`.
    pub open spec fn spec_merged(t: FatType, cluster: u32, b: Seq<u8>, value: u32) -> Seq<u8> {
        match t {
            FatType::Fat12 => {
                let old = spec_le16(b, 0);
                let merged = if cluster % 2 == 0 {
                    (old / 4096) * 4096 + value
                } else {
                    old % 16 + value * 16
                };
                spec_put16(b, 0, merged as u16)
            },
            FatType::Fat16 => spec_put16(b, 0, value as u16),
            FatType::Fat32 => spec_put32(
                b,
                0,
                ((spec_le32(b, 0) / 0x1000_0000) * 0x1000_0000 + value) as u32,
            ),
        }
    }

    /// What `serialize_into` does: the new bytes, or the error.
    pub open spec fn spec_serialize_into(self, t: FatType, cluster: u32, b: Seq<u8>) -> Result<Seq<u8>, FormatError> {
        match self.spec_value(t) {
            None => Err(FormatError::InvalidFatEntry),
            Some(value) => if b.len() < spec_entry_width(t) {
                Err(FormatError::BufferTooSmall)
            } else {
                Ok(FatEntry::spec_merged(t, cluster, b, value))
            },
        }
    }

    /// An entry that `serialize_into` accepts and `parse` reads back unchanged.
    pub open spec fn spec_canonical(self, t: FatType) -> bool {
        match self {
            FatEntry::Free | FatEntry::Bad | FatEntry::EndOfChain => true,
            FatEntry::Data(v) => 2 <= v < spec_reserved_marker(t),
            FatEntry::Reserved(v) => v == 1 || (spec_reserved_marker(t) <= v < spec_bad_marker(t)),
        }
    }

    /// Reads the entry of `cluster` from the FAT bytes that hold it.
    pub fn parse(fat_type: FatType, cluster: u32, bytes: &[u8]) -> (r: Result<Self, FormatError>)
        ensures
            r == FatEntry::spec_parse(fat_type, cluster, bytes@),
    {
        let value: u32 = match fat_type {
            FatType::Fat12 => {
                if bytes.len() < 2 {
                    return Err(FormatError::BufferTooSmall);
                }
                let pair = le16(bytes, 0) as u32;
                if cluster % 2 == 0 {
                    pair % 4096
                } else {
                    pair / 16
                }
            },
            FatType::Fat16 => {
                if bytes.len() < 2 {
                    return Err(FormatError::BufferTooSmall);
                }
                le16(bytes, 0) as u32
            },
            FatType::Fat32 => {
                if bytes.len() < 4 {
                    return Err(FormatError::BufferTooSmall);
                }
                le32(bytes, 0) % 0x1000_0000
            },
        };
        let (bad, eoc, reserved) = fat_markers(fat_type);
        if value == 0 {
            Ok(FatEntry::Free)
        } else if 2 <= value && value < reserved {
            Ok(FatEntry::Data(value))
        } else if value == bad {
            Ok(FatEntry::Bad)
        } else if value >= eoc {
            Ok(FatEntry::EndOfChain)
        } else {
            Ok(FatEntry::Reserved(value))
        }
    }

    /// Serializes an entry into bytes read from the FAT.
    ///
    /// The adjacent nibble in FAT12 and the reserved high nibble in FAT32 are preserved.
    pub fn serialize_into(self, fat_type: FatType, cluster: u32, bytes: &mut [u8]) -> (r: Result<(), FormatError>)
        ensures
            match self.spec_serialize_into(fat_type, cluster, old(bytes)@) {
                Ok(nb) => r is Ok && final(bytes)@ == nb,
                Err(e) => r == Err::<(), FormatError>(e) && final(bytes)@ == old(bytes)@,
            },
    {
        let (bad, _eoc, reserved) = fat_markers(fat_type);
        let mask: u32 = match fat_type {
            FatType::Fat12 => 0x0fff,
            FatType::Fat16 => 0xffff,
            FatType::Fat32 => 0x0fff_ffff,
        };
        let value: u32 = match self {
            FatEntry::Free => 0,
            FatEntry::Data(v) => {
                if 2 <= v && v < reserved {
                    v
                } else {
                    return Err(FormatError::InvalidFatEntry);
                }
            },
            FatEntry::Bad => bad,
            FatEntry::EndOfChain => mask,
            FatEntry::Reserved(v) => {
                if v <= mask {
                    v
                } else {
                    return Err(FormatError::InvalidFatEntry);
                }
            },
        };
        assert(self.spec_value(fat_type) == Some(value));
        match fat_type {
            FatType::Fat12 => {
                if bytes.len() < 2 {
                    return Err(FormatError::BufferTooSmall);
                }
                let old = le16(bytes, 0);
                let merged: u16 = if cluster % 2 == 0 {
                    (old / 4096) * 4096 + value as u16
                } else {
                    old % 16 + (value as u16) * 16
                };
                put16(bytes, 0, merged);
            },
            FatType::Fat16 => {
                if bytes.len() < 2 {
                    return Err(FormatError::BufferTooSmall);
                }
                put16(bytes, 0, value as u16);
            },
            FatType::Fat32 => {
                if bytes.len() < 4 {
                    return Err(FormatError::BufferTooSmall);
                }
                let old = le32(bytes, 0);
                put32(bytes, 0, (old / 0x1000_0000) * 0x1000_0000 + value);
            },
        }
        Ok(())
    }
}

/// Serializing a canonical FAT entry and parsing the bytes again gives back the same entry.
pub proof fn lemma_fat_entry_round_trip(e: FatEntry, t: FatType, cluster: u32, b: Seq<u8>)
    requires
        e.spec_canonical(t),
        b.len() >= spec_entry_width(t),
    ensures
        e.spec_serialize_into(t, cluster, b) is Ok,
        FatEntry::spec_parse(t, cluster, e.spec_serialize_into(t, cluster, b)->Ok_0)
            == Ok::<FatEntry, FormatError>(e),
{
    let value = e.spec_value(t)->Some_0;
    let nb = FatEntry::spec_merged(t, cluster, b, value);
    assert(value <= spec_entry_mask(t));
    match t {
        FatType::Fat12 => {
            let old = spec_le16(b, 0);
            let merged = if cluster % 2 == 0 {
                (old / 4096) * 4096 + value
            } else {
                old % 16 + value * 16
            };
            assert(0 <= old < 65536);
            assert(0 <= merged < 65536) by (nonlinear_arith)
                requires
                    0 <= old < 65536,
                    value < 4096,
                    merged == if cluster % 2 == 0 { (old / 4096) * 4096 + value } else { old % 16 + value * 16 },
            ;
            lemma_le16_put16(b, 0, merged as u16);
            if cluster % 2 == 0 {
                assert(((old / 4096) * 4096 + value) % 4096 == value) by (nonlinear_arith)
                    requires value < 4096, old >= 0;
            } else {
                assert((old % 16 + value * 16) / 16 == value) by (nonlinear_arith)
                    requires value < 4096, old >= 0;
            }
            assert(spec_raw_entry_value(t, cluster, nb) == value);
        },
        FatType::Fat16 => {
            lemma_le16_put16(b, 0, value as u16);
        },
        FatType::Fat32 => {
            let old = spec_le32(b, 0);
            assert(0 <= old < 0x1_0000_0000) by {
                assert(0 <= spec_le16(b, 0) < 65536);
                assert(0 <= spec_le16(b, 2) < 65536);
            }
            let merged = (old / 0x1000_0000) * 0x1000_0000 + value;
            assert(0 <= merged < 0x1_0000_0000 && merged % 0x1000_0000 == value) by (nonlinear_arith)
                requires
                    0 <= old < 0x1_0000_0000,
                    value < 0x1000_0000,
                    merged == (old / 0x1000_0000) * 0x1000_0000 + value,
            ;
            lemma_le32_put32(b, 0, merged as u32);
        },
    }
}

/// Serializing an entry keeps the bits of the FAT that belong to its neighbours: the other
/// nibble of a FAT12 byte pair, the reserved high nibble of a FAT32 entry, and every byte past
/// the entry.
pub proof fn lemma_fat_entry_preserves_neighbors(e: FatEntry, t: FatType, cluster: u32, b: Seq<u8>)
    requires
        e.spec_serialize_into(t, cluster, b) is Ok,
    ensures
        ({
            let nb = e.spec_serialize_into(t, cluster, b)->Ok_0;
            &&& nb.len() == b.len()
            &&& forall|i: int| spec_entry_width(t) <= i < b.len() ==> nb[i] == b[i]
            &&& t == FatType::Fat12 && cluster % 2 == 0 ==> nb[1] / 16 == b[1] / 16
            &&& t == FatType::Fat12 && cluster % 2 == 1 ==> nb[0] % 16 == b[0] % 16
            &&& t == FatType::Fat32 ==> nb[3] / 16 == b[3] / 16
        }),
{
    let value = e.spec_value(t)->Some_0;
    assert(value <= spec_entry_mask(t));
    match t {
        FatType::Fat12 => {
            let old = spec_le16(b, 0);
            let b0 = b[0] as int;
            let b1 = b[1] as int;
            let merged = if cluster % 2 == 0 {
                (old / 4096) * 4096 + value
            } else {
                old % 16 + value * 16
            };
            assert(0 <= merged < 65536) by (nonlinear_arith)
                requires
                    0 <= b0 < 256, 0 <= b1 < 256, old == b0 + b1 * 256,
                    value < 4096,
                    merged == if cluster % 2 == 0 { (old / 4096) * 4096 + value } else { old % 16 + value * 16 },
            ;
            lemma_le16_put16(b, 0, merged as u16);
            if cluster % 2 == 0 {
                assert((merged / 256) / 16 == b1 / 16) by (nonlinear_arith)
                    requires
                        0 <= b0 < 256, 0 <= b1 < 256, old == b0 + b1 * 256, value < 4096,
                        merged == (old / 4096) * 4096 + value;
            } else {
                assert((merged % 256) % 16 == b0 % 16) by (nonlinear_arith)
                    requires
                        0 <= b0 < 256, 0 <= b1 < 256, old == b0 + b1 * 256, value < 4096,
                        merged == old % 16 + value * 16;
            }
        },
        FatType::Fat16 => {
            lemma_le16_put16(b, 0, value as u16);
        },
        FatType::Fat32 => {
            let old = spec_le32(b, 0);
            let b3 = b[3] as int;
            let lo = spec_le16(b, 0) + b[2] * 65536;
            assert(0 <= lo < 0x100_0000);
            assert(old == lo + b3 * 0x100_0000);
            let merged = (old / 0x1000_0000) * 0x1000_0000 + value;
            assert(0 <= merged < 0x1_0000_0000 && merged / 0x100_0000 / 16 == b3 / 16) by (nonlinear_arith)
                requires
                    0 <= lo < 0x100_0000, 0 <= b3 < 256, old == lo + b3 * 0x100_0000,
                    value < 0x1000_0000,
                    merged == (old / 0x1000_0000) * 0x1000_0000 + value,
            ;
            lemma_le32_put32(b, 0, merged as u32);
            let m = merged as u32;
            let hi = (m / 65536) as u16;
            assert(((hi / 256) as u8) == merged / 0x100_0000) by (nonlinear_arith)
                requires 0 <= merged < 0x1_0000_0000, m == merged, hi == m / 65536;
        },
    }
}

} // verus!
