use vstd::prelude::*;

verus! {

/// Archive-level counters of a repack descriptor.
#[derive(Debug, Clone, Copy, PartialEq, Eq, Structural)]
pub struct ArchiveMeta {
    pub version: u8,
    pub total_files: u16,
    pub total_directories: u16,
    pub total_chunks: u16,
}

/// One file entry of a repack descriptor.
#[derive(Debug, Clone)]
pub struct FileEntry {
    pub path: String,
    pub directory: String,
    pub filename: String,
    pub chunks: Vec<u16>,
}

/// One chunk entry of a repack descriptor, with its flag names spelled
/// out.
#[derive(Debug, Clone)]
pub struct ChunkDef {
    pub id: u16,
    pub offset: u32,
    pub size_compressed: u32,
    pub size_decompressed: u32,
    pub flags: Vec<String>,
    pub archive_file_index: u16,
}

/// The range-coder parameter block stored in the header when at least one
/// chunk carries the DZ-range flag.
#[derive(Debug, Clone, Copy, PartialEq, Eq, Structural)]
pub struct RangeSettings {
    pub win_size: u8,
    pub flags: u8,
    pub offset_table_size: u8,
    pub offset_tables: u8,
    pub offset_contexts: u8,
    pub ref_length_table_size: u8,
    pub ref_length_tables: u8,
    pub ref_offset_table_size: u8,
    pub ref_offset_tables: u8,
    pub big_min_match: u8,
}

/// A whole repack descriptor: what unpacking emits and packing consumes.
#[derive(Debug, Clone)]
pub struct Config {
    pub archive: ArchiveMeta,
    pub archive_files: Vec<String>,
    pub range_settings: Option<RangeSettings>,
    pub files: Vec<FileEntry>,
    pub chunks: Vec<ChunkDef>,
}

/// One parsed file-map entry: the file's directory id and its chunk ids
/// in order.
#[derive(Debug, Clone)]
pub struct FileMapEntry {
    pub id: usize,
    pub dir_idx: usize,
    pub chunk_ids: Vec<u16>,
}

/// One parsed chunk record.  `head_c_len` is the compressed length as the
/// header recorded it; `real_c_len` is the corrected on-disk length, zero
/// until size correction has run.
#[derive(Debug, Clone, Copy, PartialEq, Eq, Structural)]
pub struct RawChunk {
    pub id: u16,
    pub offset: u32,
    pub head_c_len: u32,
    pub d_len: u32,
    pub flags: u16,
    pub file_idx: u16,
    pub real_c_len: u32,
}

/// Everything the header of an archive holds, in parsed form.
/// `directories[0]` is always the implicit root, spelled `"."`.
#[derive(Debug, Clone)]
pub struct ArchiveMetadata {
    pub version: u8,
    pub user_files: Vec<String>,
    pub directories: Vec<String>,
    pub map_entries: Vec<FileMapEntry>,
    pub raw_chunks: Vec<RawChunk>,
    pub split_file_names: Vec<String>,
    pub range_settings: Option<RangeSettings>,
    pub main_file_len: u64,
}

} // verus!
