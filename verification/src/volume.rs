//! Volume layout derived from the BPB.
use vstd::prelude::*;
pub use crate::format::FatType;
use crate::format::{Bpb, FormatError, spec_reserved_marker};
use crate::handle::DirectoryLocation;

verus! {

/// A data-cluster number; it is always at least 2.
#[derive(Clone, Copy, Debug, PartialEq, Eq, PartialOrd, Ord)]
pub struct Cluster(u32);

impl Cluster {
    #[verifier::type_invariant]
    closed spec fn inv(self) -> bool {
        self.0 >= 2
    }

    /// The cluster number.
    pub closed spec fn spec_get(self) -> u32 {
        self.0
    }

    /// The cluster with number `value`, which must be at least 2.
    pub closed spec fn spec_from(value: u32) -> Cluster {
        Cluster(value)
    }

    pub fn new(value: u32) -> (r: Option<Self>)
        ensures
            value >= 2 ==> r == Some(Cluster::spec_from(value)),
            value < 2 ==> r is None,
            r matches Some(c) ==> c.spec_get() == value,
    {
        if value >= 2 {
            Some(Cluster(value))
        } else {
            None
        }
    }

    pub fn get(self) -> (r: u32)
        ensures
            r == self.spec_get(),
            r >= 2,
    {
        proof {
            use_type_invariant(&self);
        }
        self.0
    }
}

/// Two clusters are equal exactly when their numbers are.
pub proof fn lemma_cluster_eq(a: Cluster, b: Cluster)
    ensures
        (a == b) <==> (a.spec_get() == b.spec_get()),
{
}

/// `spec_from` gives the cluster whose number is the argument.
pub broadcast proof fn lemma_cluster_from(value: u32)
    ensures
        #[trigger] Cluster::spec_from(value).spec_get() == value,
{
}

/// The FAT area size in sectors: the 16-bit field unless it is zero.
pub open spec fn spec_fat_sectors(bpb: Bpb) -> u32 {
    if bpb.sectors_per_fat_16 != 0 {
        bpb.sectors_per_fat_16 as u32
    } else {
        bpb.sectors_per_fat_32
    }
}

/// Number of sectors of the fixed root directory, rounded up.
pub open spec fn spec_root_directory_sectors(bpb: Bpb) -> int {
    let root_bytes = bpb.root_entry_count * 32;
    (root_bytes + bpb.bytes_per_sector - 1) / (bpb.bytes_per_sector as int)
}

/// The FAT type selected by the cluster count.
pub open spec fn spec_fat_type_of(cluster_count: int) -> FatType {
    if cluster_count < 4085 {
        FatType::Fat12
    } else if cluster_count < 65525 {
        FatType::Fat16
    } else {
        FatType::Fat32
    }
}

/// How many entries the FAT area can hold.
pub open spec fn spec_fat_entry_capacity(fat_type: FatType, fat_bytes: int) -> int {
    match fat_type {
        FatType::Fat12 => fat_bytes * 2 / 3,
        FatType::Fat16 => fat_bytes / 2,
        FatType::Fat32 => fat_bytes / 4,
    }
}

/// The layout of a FAT volume.
#[derive(Clone, Copy, Debug, PartialEq, Eq, Structural)]
pub struct Volume {
    pub bpb: Bpb,
    pub fat_type: FatType,
    pub fat_start_sector: u32,
    pub root_directory_start_sector: u32,
    pub root_directory_sectors: u32,
    pub data_start_sector: u32,
    pub cluster_count: u32,
}

impl Volume {
    /// What `from_bpb` returns.
    pub open spec fn spec_from_bpb(bpb: Bpb) -> Result<Volume, FormatError> {
        let fat_sectors = spec_fat_sectors(bpb);
        let root_directory_sectors = spec_root_directory_sectors(bpb);
        let fat_start_sector = bpb.reserved_sector_count as int;
        let fats = fat_sectors * bpb.fat_count;
        let root_directory_start_sector = fat_start_sector + fats;
        let data_start_sector = root_directory_start_sector + root_directory_sectors;
        if fats > u32::MAX || root_directory_start_sector > u32::MAX || data_start_sector
            > u32::MAX || bpb.total_sectors < data_start_sector {
            Err(FormatError::InvalidBpb)
        } else {
            let cluster_count = (bpb.total_sectors - data_start_sector) / (
            bpb.sectors_per_cluster as int);
            let fat_type = spec_fat_type_of(cluster_count);
            if fat_type == FatType::Fat32 && (bpb.root_cluster < 2 || bpb.sectors_per_fat_16 != 0
                || bpb.sectors_per_fat_32 == 0 || bpb.root_entry_count != 0) {
                Err(FormatError::InvalidBpb)
            } else if fat_type != FatType::Fat32 && (bpb.root_entry_count == 0
                || bpb.sectors_per_fat_16 == 0) {
                Err(FormatError::InvalidBpb)
            } else if bpb.extended_flags & 0x80 != 0 && (bpb.extended_flags & 0x0f) >= bpb.fat_count {
                Err(FormatError::InvalidBpb)
            } else if spec_fat_entry_capacity(fat_type, fat_sectors * bpb.bytes_per_sector)
                < cluster_count + 2 {
                Err(FormatError::InvalidBpb)
            } else if cluster_count + 1 >= spec_reserved_marker(fat_type) {
                Err(FormatError::InvalidBpb)
            } else {
                Ok(
                    Volume {
                        bpb,
                        fat_type,
                        fat_start_sector: fat_start_sector as u32,
                        root_directory_start_sector: root_directory_start_sector as u32,
                        root_directory_sectors: root_directory_sectors as u32,
                        data_start_sector: data_start_sector as u32,
                        cluster_count: cluster_count as u32,
                    },
                )
            }
        }
    }

    /// A volume as `from_bpb` builds it.
    pub open spec fn spec_well_formed(self) -> bool {
        &&& self.bpb.bytes_per_sector != 0
        &&& self.bpb.sectors_per_cluster != 0
        &&& Volume::spec_from_bpb(self.bpb) == Ok::<Volume, FormatError>(self)
    }

    /// Computes the layout of a volume from its BPB and checks that it is consistent.
    pub fn from_bpb(bpb: Bpb) -> (r: Result<Self, FormatError>)
        requires
            bpb.bytes_per_sector != 0,
            bpb.sectors_per_cluster != 0,
        ensures
            r == Volume::spec_from_bpb(bpb),
    {
        let fat_sectors: u32 = if bpb.sectors_per_fat_16 != 0 {
            bpb.sectors_per_fat_16 as u32
        } else {
            bpb.sectors_per_fat_32
        };
        let root_bytes: u32 = bpb.root_entry_count as u32 * 32;
        let bps = bpb.bytes_per_sector as u32;
        let root_directory_sectors: u32 = (root_bytes + bps - 1) / bps;
        let fat_start_sector = bpb.reserved_sector_count as u32;
        let fats = match fat_sectors.checked_mul(bpb.fat_count as u32) {
            Some(v) => v,
            None => return Err(FormatError::InvalidBpb),
        };
        let root_directory_start_sector = match fat_start_sector.checked_add(fats) {
            Some(v) => v,
            None => return Err(FormatError::InvalidBpb),
        };
        let data_start_sector = match root_directory_start_sector.checked_add(root_directory_sectors) {
            Some(v) => v,
            None => return Err(FormatError::InvalidBpb),
        };
        let data_sectors = match bpb.total_sectors.checked_sub(data_start_sector) {
            Some(v) => v,
            None => return Err(FormatError::InvalidBpb),
        };
        let cluster_count = data_sectors / bpb.sectors_per_cluster as u32;
        let fat_type = if cluster_count < 4_085 {
            FatType::Fat12
        } else if cluster_count < 65_525 {
            FatType::Fat16
        } else {
            FatType::Fat32
        };
        if fat_type == FatType::Fat32 && (bpb.root_cluster < 2 || bpb.sectors_per_fat_16 != 0
            || bpb.sectors_per_fat_32 == 0 || bpb.root_entry_count != 0) {
            return Err(FormatError::InvalidBpb);
        }
        if fat_type != FatType::Fat32 && (bpb.root_entry_count == 0 || bpb.sectors_per_fat_16 == 0) {
            return Err(FormatError::InvalidBpb);
        }
        if bpb.extended_flags & 0x80 != 0 && (bpb.extended_flags & 0x0f) >= bpb.fat_count as u16 {
            return Err(FormatError::InvalidBpb);
        }
        assert(fat_sectors * bpb.bytes_per_sector <= 0xffff_ffff * 0xffff) by (nonlinear_arith)
            requires fat_sectors <= 0xffff_ffff, bpb.bytes_per_sector <= 0xffff;
        let fat_bytes: u64 = fat_sectors as u64 * bpb.bytes_per_sector as u64;
        let fat_entry_capacity: u64 = match fat_type {
            FatType::Fat12 => fat_bytes * 2 / 3,
            FatType::Fat16 => fat_bytes / 2,
            FatType::Fat32 => fat_bytes / 4,
        };
        if fat_entry_capacity < cluster_count as u64 + 2 {
            return Err(FormatError::InvalidBpb);
        }
        let first_reserved_cluster: u32 = match fat_type {
            FatType::Fat12 => 0x0ff0,
            FatType::Fat16 => 0xfff0,
            FatType::Fat32 => 0x0fff_fff0,
        };
        match cluster_count.checked_add(1) {
            None => return Err(FormatError::InvalidBpb),
            Some(max_cluster) => if max_cluster >= first_reserved_cluster {
                return Err(FormatError::InvalidBpb);
            },
        }
        Ok(
            Volume {
                bpb,
                fat_type,
                fat_start_sector,
                root_directory_start_sector,
                root_directory_sectors,
                data_start_sector,
                cluster_count,
            },
        )
    }

    pub fn sector_size(&self) -> (r: usize)
        ensures
            r == self.bpb.bytes_per_sector,
    {
        self.bpb.bytes_per_sector as usize
    }

    pub fn cluster_size(&self) -> (r: usize)
        ensures
            r == self.bpb.bytes_per_sector * self.bpb.sectors_per_cluster,
            r <= 65535 * 255,
    {
        assert(self.bpb.bytes_per_sector * self.bpb.sectors_per_cluster <= 65535 * 255) by (nonlinear_arith)
            requires self.bpb.bytes_per_sector <= 65535, self.bpb.sectors_per_cluster <= 255;
        self.sector_size() * self.bpb.sectors_per_cluster as usize
    }

    pub fn fat_sectors(&self) -> (r: u32)
        ensures
            r == spec_fat_sectors(self.bpb),
    {
        if self.bpb.sectors_per_fat_16 != 0 {
            self.bpb.sectors_per_fat_16 as u32
        } else {
            self.bpb.sectors_per_fat_32
        }
    }

    /// The highest valid cluster number.
    pub fn max_cluster(&self) -> (r: u32)
        requires
            self.cluster_count < u32::MAX,
        ensures
            r == self.cluster_count + 1,
    {
        self.cluster_count + 1
    }

    /// Byte offset of a sector from the start of the volume.
    pub fn sector_byte_offset(&self, sector: u32) -> (r: u64)
        ensures
            r == sector * self.bpb.bytes_per_sector,
    {
        assert(sector * self.bpb.bytes_per_sector <= 0xffff_ffff * 0xffff) by (nonlinear_arith)
            requires sector <= 0xffff_ffff, self.bpb.bytes_per_sector <= 0xffff;
        sector as u64 * self.bpb.bytes_per_sector as u64
    }

    /// Byte offset of a data cluster, if the cluster lies inside the data area.
    pub open spec fn spec_cluster_byte_offset(self, cluster: u32) -> Option<u64> {
        if cluster >= 2 && cluster - 2 < self.cluster_count {
            Some(
                ((self.data_start_sector + (cluster - 2) * self.bpb.sectors_per_cluster)
                    * self.bpb.bytes_per_sector) as u64,
            )
        } else {
            None
        }
    }

    pub fn cluster_byte_offset(&self, cluster: Cluster) -> (r: Option<u64>)
        ensures
            r == self.spec_cluster_byte_offset(cluster.spec_get()),
    {
        let value = cluster.get();
        let index = value - 2;
        if index < self.cluster_count {
            let spc = self.bpb.sectors_per_cluster as u64;
            let bps = self.bpb.bytes_per_sector as u64;
            assert(index * spc <= 0xffff_ffff * 255) by (nonlinear_arith)
                requires index <= 0xffff_ffff, spc <= 255;
            let sector = self.data_start_sector as u64 + index as u64 * spc;
            assert(sector * bps <= (0xffff_ffff + 0xffff_ffff * 255) * 0xffff) by (nonlinear_arith)
                requires sector <= 0xffff_ffff + 0xffff_ffff * 255, bps <= 0xffff;
            Some(sector * bps)
        } else {
            None
        }
    }

    /// Where the root directory lives.
    pub open spec fn spec_root_directory(self) -> DirectoryLocation {
        match self.fat_type {
            FatType::Fat32 => DirectoryLocation::Cluster(Cluster::spec_from(self.bpb.root_cluster)),
            _ => DirectoryLocation::FixedRoot,
        }
    }

    pub fn root_directory(&self) -> (r: DirectoryLocation)
        requires
            self.fat_type == FatType::Fat32 ==> self.bpb.root_cluster >= 2,
        ensures
            r == self.spec_root_directory(),
    {
        match self.fat_type {
            FatType::Fat32 => {
                match Cluster::new(self.bpb.root_cluster) {
                    Some(c) => DirectoryLocation::Cluster(c),
                    None => DirectoryLocation::FixedRoot,
                }
            },
            FatType::Fat12 | FatType::Fat16 => DirectoryLocation::FixedRoot,
        }
    }

    pub open spec fn spec_fat_mirroring_enabled(self) -> bool {
        self.fat_type != FatType::Fat32 || self.bpb.extended_flags & 0x80 == 0
    }

    /// Whether every FAT copy is kept up to date.
    pub fn fat_mirroring_enabled(&self) -> (r: bool)
        ensures
            r == self.spec_fat_mirroring_enabled(),
    {
        self.fat_type != FatType::Fat32 || self.bpb.extended_flags & 0x80 == 0
    }

    pub open spec fn spec_active_fat(self) -> u8 {
        if self.spec_fat_mirroring_enabled() {
            0
        } else {
            (self.bpb.extended_flags & 0x0f) as u8
        }
    }

    /// The FAT copy that is read.
    pub fn active_fat(&self) -> (r: u8)
        ensures
            r == self.spec_active_fat(),
            r < 16,
    {
        if self.fat_mirroring_enabled() {
            0
        } else {
            let flags = self.bpb.extended_flags;
            assert(flags & 0x0f < 16) by (bit_vector);
            (flags & 0x0f) as u8
        }
    }
}

/// Data clusters follow one another from the start of the data area: cluster 2 begins at the
/// first data sector, and cluster `b` begins `(b - a)` cluster sizes after cluster `a`, so two
/// clusters never share a byte.
pub proof fn lemma_cluster_offsets(v: Volume, a: u32, b: u32)
    requires
        2 <= a <= b,
        b - 2 < v.cluster_count,
    ensures
        v.spec_cluster_byte_offset(2) == Some((v.data_start_sector * v.bpb.bytes_per_sector) as u64),
        v.spec_cluster_byte_offset(a) is Some,
        v.spec_cluster_byte_offset(b) is Some,
        v.spec_cluster_byte_offset(b)->Some_0 - v.spec_cluster_byte_offset(a)->Some_0 == (b - a)
            * (v.bpb.bytes_per_sector * v.bpb.sectors_per_cluster),
{
    let ds = v.data_start_sector as int;
    let spc = v.bpb.sectors_per_cluster as int;
    let bps = v.bpb.bytes_per_sector as int;
    let oa = (ds + (a - 2) * spc) * bps;
    let ob = (ds + (b - 2) * spc) * bps;
    assert(0 <= oa <= ob <= (0xffff_ffff + 0xffff_ffff * 255) * 0xffff) by (nonlinear_arith)
        requires
            0 <= ds <= 0xffff_ffff,
            0 <= spc <= 255,
            0 <= bps <= 0xffff,
            2 <= a <= b,
            b - 2 <= 0xffff_ffff,
            oa == (ds + (a - 2) * spc) * bps,
            ob == (ds + (b - 2) * spc) * bps,
    ;
    assert(ob - oa == (b - a) * (bps * spc)) by (nonlinear_arith)
        requires
            oa == (ds + (a - 2) * spc) * bps,
            ob == (ds + (b - 2) * spc) * bps,
    ;
    assert(ds * bps <= 0xffff_ffff * 0xffff) by (nonlinear_arith)
        requires
            0 <= ds <= 0xffff_ffff,
            0 <= bps <= 0xffff,
    ;
}

/// The FAT type of a mounted volume follows its cluster count: FAT12 below 4085 clusters,
/// FAT16 from 4085 below 65525, FAT32 from 65525; the cluster count is the number of whole
/// clusters in the sectors after the data start.
pub proof fn lemma_fat_type_follows_cluster_count(bpb: Bpb)
    requires
        Volume::spec_from_bpb(bpb) is Ok,
        bpb.bytes_per_sector != 0,
        bpb.sectors_per_cluster != 0,
    ensures
        ({
            let v = Volume::spec_from_bpb(bpb)->Ok_0;
            &&& v.cluster_count == (bpb.total_sectors - v.data_start_sector) / (
            bpb.sectors_per_cluster as int)
            &&& (v.cluster_count < 4085 <==> v.fat_type == FatType::Fat12)
            &&& (4085 <= v.cluster_count < 65525 <==> v.fat_type == FatType::Fat16)
            &&& (65525 <= v.cluster_count <==> v.fat_type == FatType::Fat32)
        }),
{
    let fat_sectors = spec_fat_sectors(bpb);
    let fats = fat_sectors * bpb.fat_count;
    assert(fats >= 0) by (nonlinear_arith)
        requires
            fats == fat_sectors * bpb.fat_count,
            fat_sectors >= 0,
            bpb.fat_count >= 0,
    ;
    assert(spec_root_directory_sectors(bpb) >= 0) by (nonlinear_arith)
        requires
            bpb.bytes_per_sector >= 1,
            bpb.root_entry_count >= 0,
            spec_root_directory_sectors(bpb) == (bpb.root_entry_count * 32 + bpb.bytes_per_sector
                - 1) / (bpb.bytes_per_sector as int),
    ;
    let data_start = bpb.reserved_sector_count + fats + spec_root_directory_sectors(bpb);
    let clusters = (bpb.total_sectors - data_start) / (bpb.sectors_per_cluster as int);
    assert(0 <= clusters <= bpb.total_sectors - data_start) by (nonlinear_arith)
        requires
            clusters == (bpb.total_sectors - data_start) / (bpb.sectors_per_cluster as int),
            bpb.sectors_per_cluster >= 1,
            bpb.total_sectors - data_start >= 0,
    {
        assert(bpb.total_sectors - data_start >= 0);
    }
    let v = Volume::spec_from_bpb(bpb)->Ok_0;
    assert(v.cluster_count == clusters);
    assert(v.data_start_sector == data_start);
    assert(v.fat_type == spec_fat_type_of(clusters));
}

/// A BPB laid out as a FAT16 volume mounts as one: 4085 to 65518 clusters (above that the
/// cluster numbers would reach the reserved FAT16 values), a 16-bit FAT count that holds an
/// entry for every cluster, and a fixed root directory.
pub proof fn lemma_fat16_volume_mounts(bpb: Bpb)
    requires
        bpb.bytes_per_sector != 0,
        bpb.sectors_per_cluster != 0,
        bpb.sectors_per_fat_16 != 0,
        bpb.root_entry_count != 0,
        ({
            let root_sectors = (bpb.root_entry_count * 32 + bpb.bytes_per_sector - 1) / (
            bpb.bytes_per_sector as int);
            let data_start = bpb.reserved_sector_count + bpb.sectors_per_fat_16 * bpb.fat_count
                + root_sectors;
            let clusters = (bpb.total_sectors - data_start) / (bpb.sectors_per_cluster as int);
            &&& data_start <= bpb.total_sectors
            &&& 4085 <= clusters <= 65518
            &&& bpb.sectors_per_fat_16 * bpb.bytes_per_sector / 2 >= clusters + 2
        }),
        !(bpb.extended_flags & 0x80 != 0 && (bpb.extended_flags & 0x0f) >= bpb.fat_count),
    ensures
        ({
            let root_sectors = (bpb.root_entry_count * 32 + bpb.bytes_per_sector - 1) / (
            bpb.bytes_per_sector as int);
            let data_start = bpb.reserved_sector_count + bpb.sectors_per_fat_16 * bpb.fat_count
                + root_sectors;
            let clusters = (bpb.total_sectors - data_start) / (bpb.sectors_per_cluster as int);
            &&& Volume::spec_from_bpb(bpb) is Ok
            &&& Volume::spec_from_bpb(bpb)->Ok_0.fat_type == FatType::Fat16
            &&& Volume::spec_from_bpb(bpb)->Ok_0.cluster_count == clusters
            &&& Volume::spec_from_bpb(bpb)->Ok_0.data_start_sector == data_start
        }),
{
    let fats = bpb.sectors_per_fat_16 * bpb.fat_count;
    assert(0 <= fats <= 0xffff * 0xff) by (nonlinear_arith)
        requires
            fats == bpb.sectors_per_fat_16 * bpb.fat_count,
            bpb.sectors_per_fat_16 <= 0xffff,
            bpb.fat_count <= 0xff,
    ;
    assert(spec_fat_sectors(bpb) == bpb.sectors_per_fat_16);
}

/// A volume accepted by `from_bpb` has clusters numbered from 2 to `cluster_count + 1`,
/// all below the reserved FAT values; its data area ends inside the volume; and, when
/// mirroring is off, the active FAT copy exists.
pub proof fn lemma_well_formed_volume(v: Volume)
    requires
        v.spec_well_formed(),
    ensures
        v.cluster_count + 1 < spec_reserved_marker(v.fat_type),
        v.data_start_sector <= v.bpb.total_sectors,
        v.fat_start_sector + spec_fat_sectors(v.bpb) * v.bpb.fat_count == v.root_directory_start_sector,
        v.root_directory_start_sector + v.root_directory_sectors == v.data_start_sector,
        v.fat_type == FatType::Fat32 ==> v.bpb.root_cluster >= 2 && v.root_directory_sectors == 0,
        v.fat_type != FatType::Fat32 ==> v.bpb.root_entry_count != 0,
        !v.spec_fat_mirroring_enabled() ==> (v.spec_active_fat() as int) < v.bpb.fat_count,
        v.cluster_count * v.bpb.sectors_per_cluster <= v.bpb.total_sectors - v.data_start_sector,
{
    let bpb = v.bpb;
    let dss = v.data_start_sector as int;
    let spc = bpb.sectors_per_cluster as int;
    assert(v.cluster_count == (bpb.total_sectors - dss) / spc);
    assert(((bpb.total_sectors - dss) / spc) * spc <= bpb.total_sectors - dss) by (nonlinear_arith)
        requires spc > 0, bpb.total_sectors - dss >= 0;
    if v.fat_type == FatType::Fat32 {
        assert(bpb.root_entry_count == 0);
        assert(spec_root_directory_sectors(bpb) == (bpb.bytes_per_sector - 1) / (bpb.bytes_per_sector as int));
        assert((bpb.bytes_per_sector - 1) / (bpb.bytes_per_sector as int) == 0) by (nonlinear_arith)
            requires bpb.bytes_per_sector > 0;
    }
    if !v.spec_fat_mirroring_enabled() {
        let flags = bpb.extended_flags;
        assert(flags & 0x0f < 16) by (bit_vector);
        assert(flags & 0x80 != 0);
    }
}

} // verus!
