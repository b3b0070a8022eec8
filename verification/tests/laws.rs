use fatsd::access::{
    LfnSequence, fat_entry_offset, lookup_accepts, next_from_entry, read_length,
};
use fatsd::write::{FreeRunStep, free_run_step, truncate_request, write_request};
use fatsd::{
    AllocationAccess, BasicDirectoryHandle, BasicFileHandle, BlockAccess, BlockWrite, ChainAccess,
    DirectoryAccess, DirectoryHandle, DirectoryWrite, Error, FatFs, FileAccess, FileHandle,
    FileSystem, FileWrite,
    MbrError, read_mbr, read_volume,
    format::{Bpb, FatEntry, FormatError, LfnEntry, RawDirEntry, ShortName},
    volume::{Cluster, FatType, Volume},
};

#[derive(Debug, Eq, PartialEq)]
enum MemoryError {
    OutOfBounds,
    Broken,
}

struct MemoryDevice {
    bytes: Vec<u8>,
    block_size: usize,
    broken: bool,
}

impl BlockAccess for MemoryDevice {
    type Error = MemoryError;

    fn block_size(&self) -> usize {
        self.block_size
    }

    fn read_block_at(
        &mut self,
        block: u64,
        offset: usize,
        out: &mut [u8],
    ) -> Result<(), Self::Error> {
        if self.broken {
            return Err(MemoryError::Broken);
        }
        if offset + out.len() > self.block_size {
            return Err(MemoryError::OutOfBounds);
        }
        let start = block as usize * self.block_size + offset;
        let source = self
            .bytes
            .get(start..start + out.len())
            .ok_or(MemoryError::OutOfBounds)?;
        out.copy_from_slice(source);
        Ok(())
    }
}

impl BlockWrite for MemoryDevice {
    fn write_block_at(
        &mut self,
        block: u64,
        offset: usize,
        data: &[u8],
    ) -> Result<(), Self::Error> {
        if self.broken {
            return Err(MemoryError::Broken);
        }
        if offset + data.len() > self.block_size {
            return Err(MemoryError::OutOfBounds);
        }
        let start = block as usize * self.block_size + offset;
        let target = self
            .bytes
            .get_mut(start..start + data.len())
            .ok_or(MemoryError::OutOfBounds)?;
        target.copy_from_slice(data);
        Ok(())
    }
}

struct TestFs {
    device: MemoryDevice,
    volume: Volume,
}

impl BlockAccess for TestFs {
    type Error = MemoryError;

    fn block_size(&self) -> usize {
        self.device.block_size()
    }

    fn read_block_at(
        &mut self,
        block: u64,
        offset: usize,
        out: &mut [u8],
    ) -> Result<(), Self::Error> {
        self.device.read_block_at(block, offset, out)
    }
}

impl BlockWrite for TestFs {
    fn write_block_at(
        &mut self,
        block: u64,
        offset: usize,
        data: &[u8],
    ) -> Result<(), Self::Error> {
        self.device.write_block_at(block, offset, data)
    }
}

impl ChainAccess for TestFs {
    fn volume(&self) -> &Volume {
        &self.volume
    }
}

impl DirectoryAccess for TestFs {
    type DirectoryHandle = BasicDirectoryHandle;
}

impl FileAccess for TestFs {
    type FileHandle = BasicFileHandle;
}

impl AllocationAccess for TestFs {}
impl DirectoryWrite for TestFs {}
impl FileWrite for TestFs {}
impl FatFs for TestFs {}

fn bpb() -> Bpb {
    Bpb {
        bytes_per_sector: 512,
        sectors_per_cluster: 1,
        reserved_sector_count: 1,
        fat_count: 2,
        root_entry_count: 16,
        total_sectors: 12,
        media: 0xf8,
        sectors_per_fat_16: 1,
        sectors_per_track: 32,
        head_count: 64,
        hidden_sectors: 0,
        sectors_per_fat_32: 0,
        extended_flags: 0,
        root_cluster: 0,
        fs_info_sector: 0,
        backup_boot_sector: 0,
    }
}

fn test_fs(fat_type: FatType) -> TestFs {
    TestFs {
        device: MemoryDevice {
            bytes: vec![0; 12 * 512],
            block_size: 128,
            broken: false,
        },
        volume: Volume {
            bpb: bpb(),
            fat_type,
            fat_start_sector: 1,
            root_directory_start_sector: 3,
            root_directory_sectors: 1,
            data_start_sector: 4,
            cluster_count: 8,
        },
    }
}

fn formatted_image() -> Vec<u8> {
    let mut bytes = vec![0; 12 * 512];
    bpb().serialize_into(&mut bytes).unwrap();
    bytes
}

fn utf16(text: &str) -> Vec<u16> {
    text.encode_utf16().collect()
}

#[test]
fn volume_layout_follows_the_bpb() {
    let volume = Volume::from_bpb(bpb()).unwrap();
    assert_eq!(volume.fat_type, FatType::Fat12);
    assert_eq!(volume.fat_start_sector, 1);
    assert_eq!(volume.root_directory_start_sector, 3);
    assert_eq!(volume.root_directory_sectors, 1);
    assert_eq!(volume.data_start_sector, 4);
    assert_eq!(volume.cluster_count, 8);
    assert_eq!(volume.cluster_size(), 512);
    assert_eq!(volume.max_cluster(), 9);
    assert_eq!(volume.cluster_byte_offset(Cluster::new(3).unwrap()), Some(5 * 512));
}

#[test]
fn clusters_start_at_two() {
    assert!(Cluster::new(0).is_none());
    assert!(Cluster::new(1).is_none());
    assert_eq!(Cluster::new(2).unwrap().get(), 2);
}

#[test]
fn bpb_round_trip_for_a_fat32_layout() {
    let mut layout = bpb();
    layout.root_entry_count = 0;
    layout.sectors_per_fat_16 = 0;
    layout.sectors_per_fat_32 = 3;
    layout.total_sectors = 70_000;
    layout.root_cluster = 2;
    layout.extended_flags = 0x81;
    layout.fs_info_sector = 1;
    layout.backup_boot_sector = 6;
    let mut sector = [0x11; 512];
    layout.serialize_into(&mut sector).unwrap();
    assert_eq!(Bpb::parse(&sector).unwrap(), layout);
    assert_eq!(sector[0], 0x11);
    assert_eq!(&sector[510..512], &[0x55, 0xaa]);
}

#[test]
fn short_buffers_are_refused() {
    assert_eq!(Bpb::parse(&[0; 10]), Err(FormatError::BufferTooSmall));
    assert_eq!(RawDirEntry::parse(&[0; 5]), Err(FormatError::BufferTooSmall));
    let mut small = [0; 100];
    assert_eq!(bpb().serialize_into(&mut small), Err(FormatError::BufferTooSmall));
}

#[test]
fn fat_entries_round_trip_on_every_fat_type() {
    for (fat_type, cluster, entry) in [
        (FatType::Fat12, 3, FatEntry::Data(0xabc)),
        (FatType::Fat12, 4, FatEntry::EndOfChain),
        (FatType::Fat16, 5, FatEntry::Bad),
        (FatType::Fat16, 6, FatEntry::Free),
        (FatType::Fat32, 7, FatEntry::Data(0x0123_4567)),
    ] {
        let mut bytes = [0x5a; 4];
        entry.serialize_into(fat_type, cluster, &mut bytes).unwrap();
        assert_eq!(FatEntry::parse(fat_type, cluster, &bytes).unwrap(), entry);
    }
}

#[test]
fn directory_entry_fields_read_back() {
    let mut entry = RawDirEntry::new(ShortName(*b"FILE    BIN"), 0x20);
    entry.set_file_size(0x0102_0304);
    entry.set_first_cluster(FatType::Fat32, Some(0x0123_4567));
    assert_eq!(entry.file_size(), 0x0102_0304);
    assert_eq!(entry.first_cluster(), 0x0123_4567);
    entry.set_first_cluster(FatType::Fat16, Some(0x0001_2345));
    assert_eq!(entry.first_cluster_high(), 0);
    assert_eq!(entry.first_cluster_low(), 0x2345);
    assert_eq!(entry.short_name(), ShortName(*b"FILE    BIN"));
    assert_eq!(entry.attributes(), 0x20);
}

#[test]
fn long_name_entries_round_trip() {
    let mut characters = [0xffff; 13];
    characters[..3].copy_from_slice(&[0x61, 0x62, 0]);
    let entry = LfnEntry {
        ordinal: 2,
        is_last: true,
        checksum: 0x42,
        characters,
    };
    let raw = entry.serialize().unwrap();
    assert!(raw.is_lfn());
    assert_eq!(LfnEntry::parse(raw).unwrap(), entry);
    let invalid = LfnEntry {
        ordinal: 0,
        ..entry
    };
    assert_eq!(invalid.serialize(), Err(FormatError::InvalidDirectoryEntry));
}

#[test]
fn short_name_checksum_and_matching() {
    assert_eq!(ShortName(*b"LONGFI~1TXT").checksum(), 212);
    assert_eq!(ShortName(*b"README  TXT").checksum(), 115);
    assert!(ShortName(*b"README  TXT").matches("readme.txt"));
    assert!(ShortName(*b"README     ").matches("README"));
    assert!(!ShortName(*b"README  TXT").matches("readme.tx"));
}

#[test]
fn canonical_name_is_stored_without_long_entries_and_found_in_any_case() {
    let mut fs = test_fs(FatType::Fat16);
    let file = fs.create_file("/README.TXT").unwrap();
    assert_eq!(file.file_info().entry.index, 0);
    let raw = fs.read_directory_entry_at(file.file_info().entry).unwrap();
    assert_eq!(raw.short_name(), ShortName(*b"README  TXT"));
    assert!(fs.open_file("readme.txt").is_ok());
    let root = fs.root_directory();
    assert!(fs.read_directory_entry(&root, 1).unwrap().is_none());
}

#[test]
fn long_name_entries_spell_the_name_back() {
    let mut fs = test_fs(FatType::Fat16);
    let file = fs.create_file("/created long name.bin").unwrap();
    assert_eq!(file.file_info().entry.index, 2);
    let raw = fs.read_directory_entry_at(file.file_info().entry).unwrap();
    assert_eq!(raw.short_name(), ShortName(*b"CREATE~1BIN"));
    let first = fs
        .read_directory_entry_at(fatsd::DirectoryEntryLocation {
            directory: file.file_info().entry.directory,
            index: 0,
        })
        .unwrap();
    let lfn = LfnEntry::parse(first).unwrap();
    assert_eq!(lfn.ordinal, 2);
    assert!(lfn.is_last);
    assert_eq!(lfn.checksum, ShortName(*b"CREATE~1BIN").checksum());

    let root = fs.root_directory();
    let mut cursor = 0;
    let mut name = [0; 260];
    let entry = fs
        .read_next_directory_entry(&root, &mut cursor, &mut name)
        .unwrap()
        .unwrap();
    assert_eq!(entry.location.index, 2);
    assert_eq!(entry.lfn_start_index, Some(0));
    assert_eq!(&name[..entry.name_length], utf16("created long name.bin").as_slice());
    assert_eq!(cursor, 3);
}

#[test]
fn a_taken_alias_moves_to_the_next_ordinal() {
    let mut fs = test_fs(FatType::Fat16);
    fs.create_file("/created long name.bin").unwrap();
    let second = fs.create_file("/created long name 2.bin").unwrap();
    let raw = fs.read_directory_entry_at(second.file_info().entry).unwrap();
    assert_eq!(raw.short_name(), ShortName(*b"CREATE~2BIN"));
    assert!(fs.open_file("/CREATE~2.BIN").is_ok());
}

#[test]
fn persisted_length_and_cluster_read_back() {
    let mut fs = test_fs(FatType::Fat16);
    let mut file = fs.create_file("/DATA.BIN").unwrap();
    assert_eq!(fs.write_file_at(&mut file, 0, &[7; 700]).unwrap(), 700);
    let first = file.file_info().first_cluster.unwrap();
    let reopened = fs.open_file("/DATA.BIN").unwrap();
    assert_eq!(reopened.file_info().length, 700);
    assert_eq!(reopened.file_info().first_cluster, Some(first));
    assert_eq!(fs.chain_tail_and_length(first).unwrap().1, 2);
}

#[test]
fn a_whole_number_of_clusters_needs_no_extra_cluster() {
    let mut fs = test_fs(FatType::Fat16);
    let mut file = fs.create_file("/DATA.BIN").unwrap();
    fs.write_file_at(&mut file, 0, &[1; 1024]).unwrap();
    let first = file.file_info().first_cluster.unwrap();
    assert_eq!(fs.chain_tail_and_length(first).unwrap().1, 2);
}

#[test]
fn a_gap_before_written_data_reads_as_zeros() {
    let mut fs = test_fs(FatType::Fat16);
    fs.device.bytes[4 * 512..].fill(0xee);
    let mut file = fs.create_file("/GAP.BIN").unwrap();
    fs.write_file_at(&mut file, 600, b"tail").unwrap();
    let mut contents = [0xff; 604];
    assert_eq!(fs.read_file_at(&mut file, 0, &mut contents).unwrap(), 604);
    assert_eq!(&contents[..600], &[0; 600][..]);
    assert_eq!(&contents[600..], b"tail");
}

#[test]
fn empty_writes_and_reads_do_nothing() {
    let mut fs = test_fs(FatType::Fat16);
    let mut file = fs.create_file("/EMPTY.BIN").unwrap();
    assert_eq!(fs.write_file_at(&mut file, 5, &[]).unwrap(), 0);
    assert_eq!(file.file_info().length, 0);
    let mut out = [0; 4];
    assert_eq!(fs.read_file_at(&mut file, 0, &mut out).unwrap(), 0);
}

#[test]
fn removing_a_file_frees_its_clusters() {
    let mut fs = test_fs(FatType::Fat16);
    let mut file = fs.create_file("/DATA.BIN").unwrap();
    fs.write_file_at(&mut file, 0, &[9; 700]).unwrap();
    let first = file.file_info().first_cluster.unwrap();
    let second = fs.next_cluster(first).unwrap().unwrap();
    fs.remove_file("/DATA.BIN").unwrap();
    assert_eq!(fs.read_fat_entry(first).unwrap(), FatEntry::Free);
    assert_eq!(fs.read_fat_entry(second).unwrap(), FatEntry::Free);
    assert!(matches!(fs.open_file("/DATA.BIN"), Err(Error::NotFound)));
}

#[test]
fn renaming_keeps_the_contents() {
    let mut fs = test_fs(FatType::Fat16);
    let mut file = fs.create_file("/OLD.TXT").unwrap();
    fs.write_file_at(&mut file, 0, b"kept").unwrap();
    fs.rename("/OLD.TXT", "/a new name.txt").unwrap();
    assert!(matches!(fs.open_file("/OLD.TXT"), Err(Error::NotFound)));
    let mut renamed = fs.open_file("/a new name.txt").unwrap();
    let mut contents = [0; 4];
    assert_eq!(fs.read_file_at(&mut renamed, 0, &mut contents).unwrap(), 4);
    assert_eq!(&contents, b"kept");
    assert!(matches!(
        fs.rename("/a new name.txt", "/a new name.txt"),
        Err(Error::AlreadyExists)
    ));
}

#[test]
fn a_new_directory_holds_dot_entries() {
    let mut fs = test_fs(FatType::Fat16);
    let directory = fs.create_directory("/Sub").unwrap();
    let dot = fs.read_directory_entry(&directory, 0).unwrap().unwrap();
    let dot_dot = fs.read_directory_entry(&directory, 1).unwrap().unwrap();
    assert_eq!(dot.short_name(), ShortName(*b".          "));
    assert!(dot.is_directory());
    assert_eq!(dot_dot.short_name(), ShortName(*b"..         "));
    assert_eq!(dot_dot.first_cluster_low(), 0);
    assert!(fs.read_directory_entry(&directory, 2).unwrap().is_none());
    assert_eq!(
        fs.open_directory("/Sub/..").unwrap().directory_info(),
        fs.root_directory().directory_info()
    );
    fs.create_file("/Sub/INNER.TXT").unwrap();
    assert!(matches!(fs.remove_directory("/Sub"), Err(Error::NotEmpty)));
    fs.remove_file("/Sub/INNER.TXT").unwrap();
    fs.remove_directory("/Sub").unwrap();
    assert!(matches!(fs.open_directory("/Sub"), Err(Error::NotFound)));
}

#[test]
fn malformed_paths_and_names_are_refused() {
    let mut fs = test_fs(FatType::Fat16);
    assert!(matches!(fs.create_file("/"), Err(Error::InvalidPath)));
    assert!(matches!(fs.create_file("/dir/"), Err(Error::InvalidPath)));
    assert!(matches!(fs.open_file(""), Err(Error::InvalidPath)));
    assert!(matches!(fs.remove_file("//"), Err(Error::InvalidPath)));
    assert!(matches!(fs.create_file("/bad*name"), Err(Error::InvalidName)));
    assert!(matches!(fs.create_file("/name."), Err(Error::InvalidName)));
    assert!(matches!(fs.create_file("/.."), Err(Error::InvalidName)));
    let long = format!("/{}", "a".repeat(256));
    assert!(matches!(fs.create_file(&long), Err(Error::NameTooLong)));
}

#[test]
fn existing_names_are_refused() {
    let mut fs = test_fs(FatType::Fat16);
    fs.create_file("/TWICE.TXT").unwrap();
    assert!(matches!(fs.create_file("/twice.txt"), Err(Error::AlreadyExists)));
    assert!(matches!(fs.create_directory("/TWICE.TXT"), Err(Error::AlreadyExists)));
}

#[test]
fn a_full_fixed_root_directory_is_refused() {
    let mut fs = test_fs(FatType::Fat16);
    for index in 0..16 {
        fs.create_file(&format!("/F{index:02}.TXT")).unwrap();
    }
    assert!(matches!(fs.create_file("/F16.TXT"), Err(Error::DirectoryFull)));
}

#[test]
fn allocation_past_the_last_cluster_is_refused() {
    let mut fs = test_fs(FatType::Fat16);
    for _ in 0..8 {
        fs.allocate_cluster(None).unwrap();
    }
    assert!(matches!(fs.allocate_cluster(None), Err(Error::NoSpace)));
}

#[test]
fn files_and_directories_are_not_confused() {
    let mut fs = test_fs(FatType::Fat16);
    fs.create_directory("/D").unwrap();
    fs.create_file("/F.TXT").unwrap();
    assert!(matches!(fs.open_file("/D"), Err(Error::NotAFile)));
    assert!(matches!(fs.remove_file("/D"), Err(Error::NotAFile)));
    assert!(matches!(fs.open_directory("/F.TXT"), Err(Error::NotADirectory)));
    assert!(matches!(fs.remove_directory("/F.TXT"), Err(Error::NotADirectory)));
    assert!(matches!(fs.create_file("/F.TXT/X"), Err(Error::NotADirectory)));
}

#[test]
fn offsets_past_the_size_limit_are_refused() {
    let mut fs = test_fs(FatType::Fat16);
    let mut file = fs.create_file("/BIG.BIN").unwrap();
    assert!(matches!(
        fs.write_file_at(&mut file, u32::MAX as u64, b"x"),
        Err(Error::OutOfBounds)
    ));
    assert!(matches!(
        fs.truncate_file(&mut file, u32::MAX as u64 + 1),
        Err(Error::OutOfBounds)
    ));
}

#[test]
fn a_broken_chain_is_reported() {
    let mut fs = test_fs(FatType::Fat16);
    let mut raw = [0; 32];
    raw[..11].copy_from_slice(b"BROKEN  BIN");
    raw[11] = 0x20;
    raw[26..28].copy_from_slice(&2u16.to_le_bytes());
    raw[28..32].copy_from_slice(&1000u32.to_le_bytes());
    fs.device.bytes[3 * 512..3 * 512 + 32].copy_from_slice(&raw);
    let mut file = fs.open_file("/BROKEN.BIN").unwrap();
    let mut out = [0; 100];
    assert!(matches!(
        fs.read_file_at(&mut file, 600, &mut out),
        Err(Error::CorruptChain)
    ));
}

#[test]
fn a_small_name_buffer_is_reported() {
    let mut fs = test_fs(FatType::Fat16);
    fs.create_file("/a rather long name.txt").unwrap();
    let root = fs.root_directory();
    let mut cursor = 0;
    let mut name = [0; 4];
    assert!(matches!(
        fs.read_next_directory_entry(&root, &mut cursor, &mut name),
        Err(Error::NameBufferTooSmall)
    ));
    assert_eq!(cursor, 0);
}

#[test]
fn device_and_format_errors_are_reported() {
    let mut zeros = MemoryDevice {
        bytes: vec![0; 512],
        block_size: 128,
        broken: false,
    };
    assert!(matches!(read_volume(&mut zeros), Err(Error::InvalidFormat(_))));
    let mut broken = MemoryDevice {
        bytes: formatted_image(),
        block_size: 128,
        broken: true,
    };
    assert!(matches!(
        read_volume(&mut broken),
        Err(Error::Io(MemoryError::Broken))
    ));
    assert!(matches!(
        read_mbr(&mut broken),
        Err(MbrError::Io(MemoryError::Broken))
    ));
}

#[test]
fn file_system_opens_an_image_and_writes_to_it() {
    let device = MemoryDevice {
        bytes: formatted_image(),
        block_size: 128,
        broken: false,
    };
    let mut fs = FileSystem::new(device).unwrap();
    assert_eq!(fs.volume_info().fat_type, FatType::Fat12);
    let mut file = fs.create_file("/Hello there.txt").unwrap();
    assert_eq!(fs.write_file_at(&mut file, 0, b"hello").unwrap(), 5);
    let mut reopened = fs.open_file("/Hello there.txt").unwrap();
    let mut out = [0; 5];
    assert_eq!(fs.read_file_at(&mut reopened, 0, &mut out).unwrap(), 5);
    assert_eq!(&out, b"hello");
    let device = fs.into_device();
    assert_eq!(device.bytes.len(), 12 * 512);
}

#[test]
fn offsets_past_every_chain_are_refused() {
    let mut fs = test_fs(FatType::Fat16);
    let first = Cluster::new(2).unwrap();
    let mut out = [0; 4];
    assert!(matches!(
        fs.read_chain_at(first, 1 << 56, &mut out),
        Err(Error::OutOfBounds)
    ));
    assert!(matches!(
        fs.write_chain_at(first, 1 << 56, b"x"),
        Err(Error::OutOfBounds)
    ));
    let mut file = fs.create_file("/FAR.BIN").unwrap();
    assert!(matches!(
        fs.write_zeros(&mut file, 1 << 56, 3),
        Err(Error::OutOfBounds)
    ));
}

#[test]
fn file_system_gives_its_device_and_volume() {
    let device = MemoryDevice {
        bytes: formatted_image(),
        block_size: 128,
        broken: false,
    };
    let fs = FileSystem::new(device).unwrap();
    assert_eq!(fs.device().block_size, 128);
    assert_eq!(fs.volume().cluster_count, 8);
    assert_eq!(fs.volume(), fs.volume_info());
}

fn file_info(length: u64, attributes: u8) -> fatsd::FileInfo {
    fatsd::FileInfo {
        first_cluster: Cluster::new(2),
        length,
        attributes,
        entry: fatsd::DirectoryEntryLocation {
            directory: fatsd::DirectoryLocation::FixedRoot,
            index: 0,
        },
    }
}

#[test]
fn lookups_compare_long_names_exactly_and_short_names_in_any_case() {
    let raw = RawDirEntry::new(ShortName(*b"LONGFI~1TXT"), 0x20);
    let long = utf16("Long File.txt");
    assert!(lookup_accepts(&raw, Some(&long), "Long File.txt"));
    assert!(!lookup_accepts(&raw, Some(&long), "long file.txt"));
    assert!(lookup_accepts(&raw, Some(&long), "longfi~1.txt"));
    assert!(lookup_accepts(&raw, None, "LONGFI~1.TXT"));
    assert!(!lookup_accepts(&raw, None, "Long File.txt"));
    let label = RawDirEntry::new(ShortName(*b"LONGFI~1TXT"), RawDirEntry::ATTR_VOLUME_ID);
    assert!(!lookup_accepts(&label, None, "longfi~1.txt"));
}

#[test]
fn read_lengths_stop_at_the_end_of_the_file() {
    assert_eq!(read_length(600, 500, 128), 100);
    assert_eq!(read_length(600, 600, 128), 0);
    assert_eq!(read_length(600, 700, 128), 0);
    assert_eq!(read_length(600, 0, 128), 128);
    assert_eq!(read_length(600, 0, 0), 0);
}

#[test]
fn write_and_truncate_requests_are_checked_before_any_write() {
    let plain = file_info(100, 0x20);
    let read_only = file_info(100, 0x21);
    assert_eq!(write_request::<()>(&plain, 100, 600, 512), Ok((700, 2)));
    assert_eq!(write_request::<()>(&read_only, 0, 1, 512), Err(Error::ReadOnly));
    assert_eq!(
        write_request::<()>(&plain, u32::MAX as u64, 1, 512),
        Err(Error::OutOfBounds)
    );
    assert_eq!(truncate_request::<()>(&plain, 1024, 512), Ok(Some(2)));
    assert_eq!(truncate_request::<()>(&plain, 100, 512), Ok(None));
    assert_eq!(truncate_request::<()>(&plain, 0, 512), Ok(Some(0)));
    assert_eq!(truncate_request::<()>(&read_only, 1, 512), Err(Error::ReadOnly));
    assert_eq!(
        truncate_request::<()>(&plain, u32::MAX as u64 + 1, 512),
        Err(Error::OutOfBounds)
    );
}

#[test]
fn fat_entries_decide_the_next_cluster() {
    let volume = Volume::from_bpb(bpb()).unwrap();
    assert_eq!(
        next_from_entry::<()>(&volume, FatEntry::Data(3)),
        Ok(Cluster::new(3))
    );
    assert_eq!(next_from_entry::<()>(&volume, FatEntry::EndOfChain), Ok(None));
    assert_eq!(
        next_from_entry::<()>(&volume, FatEntry::Free),
        Err(Error::CorruptChain)
    );
    assert_eq!(
        next_from_entry::<()>(&volume, FatEntry::Data(10)),
        Err(Error::CorruptChain)
    );
}

#[test]
fn a_free_cluster_is_searched_after_the_hint() {
    let mut fs = test_fs(FatType::Fat16);
    let hint = Cluster::new(5).unwrap();
    assert_eq!(fs.find_free_cluster(Some(hint)).unwrap().get(), 6);
    let last = Cluster::new(9).unwrap();
    assert_eq!(fs.find_free_cluster(Some(last)).unwrap().get(), 2);
    assert!(matches!(
        fs.find_free_cluster(Some(Cluster::new(10).unwrap())),
        Err(Error::OutOfBounds)
    ));
}

#[test]
fn free_entry_searches_step_through_the_records() {
    assert_eq!(free_run_step(0, 0, 4, Some(0xe5), 3), FreeRunStep::Continue(4, 1));
    assert_eq!(free_run_step(4, 1, 5, Some(0xe5), 3), FreeRunStep::Continue(4, 2));
    assert_eq!(
        free_run_step(4, 2, 6, Some(0xe5), 3),
        FreeRunStep::Found(fatsd::FreeDirectoryEntries {
            start_index: 4,
            reached_end: false
        })
    );
    assert_eq!(free_run_step(4, 2, 6, Some(b'A'), 3), FreeRunStep::Continue(4, 0));
    assert_eq!(
        free_run_step(4, 2, 6, Some(0), 3),
        FreeRunStep::Found(fatsd::FreeDirectoryEntries {
            start_index: 4,
            reached_end: true
        })
    );
    assert_eq!(
        free_run_step(0, 0, 9, None, 3),
        FreeRunStep::Found(fatsd::FreeDirectoryEntries {
            start_index: 9,
            reached_end: true
        })
    );
}

#[test]
fn a_long_name_sequence_belongs_to_the_short_entry_with_its_checksum() {
    let short = ShortName(*b"LONGFI~1TXT");
    let mut characters = [0xffff; 13];
    for (target, source) in characters.iter_mut().zip("Long File.txt".encode_utf16()) {
        *target = source;
    }
    let entry = LfnEntry {
        ordinal: 1,
        is_last: true,
        checksum: short.checksum(),
        characters,
    };
    let mut name = [0; 26];
    let mut sequence = LfnSequence::new();
    sequence.push(entry, 7, &mut name);
    assert_eq!(sequence.finish(short), Some((7, 13)));
    assert_eq!(&name[..13], utf16("Long File.txt").as_slice());
    let mut other = LfnSequence::new();
    other.push(entry, 7, &mut name);
    assert_eq!(other.finish(ShortName(*b"OTHER   TXT")), None);
}

#[test]
fn fat_entries_are_read_from_the_active_copy() {
    let two = Cluster::new(2).unwrap();
    assert_eq!(fat_entry_offset(&test_fs(FatType::Fat12).volume, two), Some(515));
    assert_eq!(fat_entry_offset(&test_fs(FatType::Fat16).volume, two), Some(516));
    assert_eq!(fat_entry_offset(&test_fs(FatType::Fat32).volume, two), Some(520));
    let three = Cluster::new(3).unwrap();
    assert_eq!(fat_entry_offset(&test_fs(FatType::Fat12).volume, three), Some(516));
}
