# fatsd

Extensible access to FAT12, FAT16 and FAT32 volumes, verified with Verus.

File-system behaviour is provided as trait default methods. An application owns the file-system
type and implements the capability traits it needs: `BlockAccess` (and `BlockWrite` for writing)
for the device and `ChainAccess::volume` for the mounted volume; `DirectoryAccess`,
`FileAccess`, `AllocationAccess`, `DirectoryWrite` and `FileWrite` then need nothing but the
handle types. `FileSystem<D>` is a ready-made implementation over any block device.

## Layout

- `src/format.rs`: on-disk values (BPB, directory entries, long-name entries, short names, FAT
  entries) with their parsers and serializers, and the round-trip laws between them.
- `src/volume.rs`: the volume layout derived from a BPB.
- `src/handle.rs`: file and directory handle metadata.
- `src/mbr.rs`: the MBR partition table.
- `src/access.rs`: block, cluster-chain, directory, file and allocation access.
- `src/write.rs`: directory-entry updates, creation, removal, renaming, file writes and
  truncation, short-name aliases and long-name entries.
- `src/name.rs`: UTF-16 encoding of names and slicing of paths.
- `tests/`: behaviour on in-memory images.
- `app/`: a block device backed by an image file, and image listing, reading and updating.
