use dzip::codec::{compress_data, CompressionMethod};
use dzip::correct::correct_chunk_sizes;
use dzip::error::DzipError;
use dzip::format::write_header;
use dzip::model::{ArchiveMetadata, FileMapEntry, RawChunk};
use dzip::pack::{pack_archive, PackEntry};
use dzip::unpack::do_unpack;

fn entry(
    filename: &str,
    directory: &str,
    volume: u16,
    method: CompressionMethod,
    data: &[u8],
) -> PackEntry {
    PackEntry {
        filename: filename.to_string(),
        directory: directory.to_string(),
        archive_file_index: volume,
        compression: method,
        data: data.to_vec(),
    }
}

#[test]
fn test_magic_check() {
    // magic bytes then zeros: an empty archive with the bare root
    let mut bytes = vec![0x44u8, 0x54, 0x52, 0x5A];
    bytes.extend_from_slice(&[0u8; 16]);
    let meta = ArchiveMetadata::load(&bytes).unwrap();
    assert_eq!(meta.user_files.len(), 0);
    assert_eq!(meta.directories.len(), 1);
    assert_eq!(meta.version, 0);

    let bad = vec![0xDEu8, 0xAD, 0xBE, 0xEF, 0, 0, 0, 0, 0];
    let err = ArchiveMetadata::load(&bad).unwrap_err();
    assert!(matches!(err, DzipError::InvalidMagic(0xEFBEADDE)));
}

#[test]
fn test_truncated_header() {
    let bytes = vec![0x44u8, 0x54, 0x52, 0x5A, 0];
    assert!(matches!(
        ArchiveMetadata::load(&bytes),
        Err(DzipError::Io(_))
    ));
}

#[test]
fn test_minimal_pack_unpack() {
    // one file, zlib, volume zero only
    let entries = vec![entry("a.txt", "", 0, CompressionMethod::Zlib, b"hello")];
    let out = pack_archive(&entries, &vec![]).unwrap();
    assert_eq!(out.volumes.len(), 1);

    let (config, files) = do_unpack(&out.volumes, false).unwrap();
    assert_eq!(files.len(), 1);
    assert_eq!(files[0].0, "a.txt");
    assert_eq!(files[0].1, b"hello".to_vec());
    assert_eq!(config.files.len(), 1);
    assert_eq!(config.chunks.len(), 1);
    assert_eq!(config.chunks[0].archive_file_index, 0);
    assert_eq!(config.chunks[0].size_decompressed, 5);
}

#[test]
fn test_header_round_trip() {
    let entries = vec![
        entry("a.txt", "textures\\ui", 0, CompressionMethod::Copy, b"one"),
        entry("b.bin", "", 0, CompressionMethod::Lzma, b"two two two"),
    ];
    let out = pack_archive(&entries, &vec![]).unwrap();
    let meta = ArchiveMetadata::load(&out.volumes[0]).unwrap();
    assert_eq!(meta.user_files, out.metadata.user_files);
    assert_eq!(meta.directories, out.metadata.directories);
    assert_eq!(meta.split_file_names, out.metadata.split_file_names);
    assert_eq!(meta.raw_chunks.len(), out.metadata.raw_chunks.len());
    for (a, b) in meta.raw_chunks.iter().zip(out.metadata.raw_chunks.iter()) {
        assert_eq!(a.offset, b.offset);
        assert_eq!(a.head_c_len, b.head_c_len);
        assert_eq!(a.d_len, b.d_len);
        assert_eq!(a.flags, b.flags);
        assert_eq!(a.file_idx, b.file_idx);
    }
    assert_eq!(meta.map_entries.len(), out.metadata.map_entries.len());
    for (a, b) in meta.map_entries.iter().zip(out.metadata.map_entries.iter()) {
        assert_eq!(a.dir_idx, b.dir_idx);
        assert_eq!(a.chunk_ids, b.chunk_ids);
    }
}

#[test]
fn test_path_traversal_rejection() {
    // a stored directory of "..\\etc" must not escape the output root
    let entries = vec![entry(
        "passwd",
        "..\\etc",
        0,
        CompressionMethod::Copy,
        b"root",
    )];
    let out = pack_archive(&entries, &vec![]).unwrap();
    let res = do_unpack(&out.volumes, false);
    assert!(matches!(res, Err(DzipError::InvalidInput(_))));
}

#[test]
fn test_size_correction() {
    // two chunks at offsets 100 and 500 in a 900-byte volume whose header
    // records 1000 for both: correction reads 400 and 400
    let chunk = |id: u16, offset: u32| RawChunk {
        id,
        offset,
        head_c_len: 1000,
        d_len: 1000,
        flags: 0,
        file_idx: 0,
        real_c_len: 0,
    };
    let chunks = vec![chunk(0, 100), chunk(1, 500)];
    let corrected = correct_chunk_sizes(&chunks, &vec![900u64]);
    assert_eq!(corrected[0].real_c_len, 400);
    assert_eq!(corrected[1].real_c_len, 400);
}

#[test]
fn test_size_correction_tolerates_wrong_lengths() {
    // an archive whose recorded compressed lengths equal the decompressed
    // lengths still extracts once the sizes are corrected
    let data = b"hello hello hello hello";
    let (flags, blob) = compress_data(&data.to_vec(), CompressionMethod::Zlib);
    let meta = ArchiveMetadata {
        version: 0,
        user_files: vec!["a.txt".to_string()],
        directories: vec![".".to_string()],
        map_entries: vec![FileMapEntry {
            id: 0,
            dir_idx: 0,
            chunk_ids: vec![0],
        }],
        raw_chunks: vec![RawChunk {
            id: 0,
            offset: 0, // patched below once the header length is known
            head_c_len: data.len() as u32, // the corruption pattern
            d_len: data.len() as u32,
            flags,
            file_idx: 0,
            real_c_len: 0,
        }],
        split_file_names: vec![],
        range_settings: None,
        main_file_len: 0,
    };
    let probe = write_header(&meta);
    let mut meta = meta;
    meta.raw_chunks[0].offset = probe.len() as u32;
    let mut volume = write_header(&meta);
    volume.extend_from_slice(&blob);
    let (_config, files) = do_unpack(&vec![volume], false).unwrap();
    assert_eq!(files[0].1, data.to_vec());
}

#[test]
fn test_multi_volume_routing() {
    // three files routed 0, 1, 0: the auxiliary volume holds only the
    // second file's payload
    let entries = vec![
        entry("one.txt", "", 0, CompressionMethod::Copy, b"first"),
        entry("two.txt", "", 1, CompressionMethod::Zlib, b"second second"),
        entry("three.txt", "", 0, CompressionMethod::Copy, b"third"),
    ];
    let out = pack_archive(&entries, &vec!["split.dz".to_string()]).unwrap();
    assert_eq!(out.volumes.len(), 2);
    let (_, expected) = compress_data(&b"second second".to_vec(), CompressionMethod::Zlib);
    assert_eq!(out.volumes[1], expected);

    let meta = ArchiveMetadata::load(&out.volumes[0]).unwrap();
    assert_eq!(meta.split_file_names, vec!["split.dz".to_string()]);

    let (_config, files) = do_unpack(&out.volumes, false).unwrap();
    assert_eq!(files.len(), 3);
    assert_eq!(files[0].1, b"first".to_vec());
    assert_eq!(files[1].1, b"second second".to_vec());
    assert_eq!(files[2].1, b"third".to_vec());
}

#[test]
fn test_unsupported_codec() {
    // a JPEG-marked chunk has no decoder: skipped without keep_raw,
    // copied raw with it
    let entries = vec![entry("pic", "", 0, CompressionMethod::Jpeg, b"raw bytes")];
    let out = pack_archive(&entries, &vec![]).unwrap();

    let (_c, files) = do_unpack(&out.volumes, false).unwrap();
    assert_eq!(files[0].1, Vec::<u8>::new());

    let (_c, files) = do_unpack(&out.volumes, true).unwrap();
    assert_eq!(files[0].1, b"raw bytes".to_vec());
}

#[test]
fn test_single_volume_no_list_no_range() {
    let entries = vec![entry("a", "", 0, CompressionMethod::Copy, b"x")];
    let out = pack_archive(&entries, &vec![]).unwrap();
    let meta = ArchiveMetadata::load(&out.volumes[0]).unwrap();
    assert!(meta.split_file_names.is_empty());
    assert!(meta.range_settings.is_none());
}

#[test]
fn test_three_volume_list() {
    // num_archive_files = 3: exactly two names in the volume list
    let entries = vec![
        entry("a", "", 0, CompressionMethod::Copy, b"x"),
        entry("b", "", 1, CompressionMethod::Copy, b"y"),
        entry("c", "", 2, CompressionMethod::Copy, b"z"),
    ];
    let splits = vec!["v1.dz".to_string(), "v2.dz".to_string()];
    let out = pack_archive(&entries, &splits).unwrap();
    let meta = ArchiveMetadata::load(&out.volumes[0]).unwrap();
    assert_eq!(meta.split_file_names, splits);
}

#[test]
fn test_root_file_no_prefix() {
    // dir_id 0: the file lands at the output root under its own name
    let entries = vec![entry("plain.txt", "", 0, CompressionMethod::Copy, b"data")];
    let out = pack_archive(&entries, &vec![]).unwrap();
    assert_eq!(out.metadata.map_entries[0].dir_idx, 0);
    let (_c, files) = do_unpack(&out.volumes, false).unwrap();
    assert_eq!(files[0].0, "plain.txt");
}

#[test]
fn test_empty_file_chunk() {
    let entries = vec![entry("empty", "", 0, CompressionMethod::Copy, b"")];
    let out = pack_archive(&entries, &vec![]).unwrap();
    assert_eq!(out.metadata.raw_chunks[0].d_len, 0);
    let (_c, files) = do_unpack(&out.volumes, false).unwrap();
    assert_eq!(files[0].1, Vec::<u8>::new());
}

#[test]
fn test_zero_codec_restores_zeros() {
    // the zero codec stores nothing and restores a run of zeros
    let entries = vec![entry("z.bin", "", 0, CompressionMethod::Zero, b"hello")];
    let out = pack_archive(&entries, &vec![]).unwrap();
    assert_eq!(out.metadata.raw_chunks[0].head_c_len, 0);
    assert_eq!(out.metadata.raw_chunks[0].d_len, 5);
    let (_c, files) = do_unpack(&out.volumes, false).unwrap();
    assert_eq!(files[0].1, vec![0u8; 5]);
}

#[test]
fn test_dz_range_block_emitted() {
    // a DZ-marked chunk forces a zero-valued range block
    let entries = vec![entry("r", "", 0, CompressionMethod::Dz, b"pass")];
    let out = pack_archive(&entries, &vec![]).unwrap();
    assert!(out.metadata.range_settings.is_some());
    let meta = ArchiveMetadata::load(&out.volumes[0]).unwrap();
    let rs = meta.range_settings.unwrap();
    assert_eq!(rs.win_size, 0);
    assert_eq!(rs.big_min_match, 0);
    let (_c, files) = do_unpack(&out.volumes, false).unwrap();
    assert_eq!(files[0].1, b"pass".to_vec());
}

#[test]
fn test_directory_paths_restored() {
    let entries = vec![entry(
        "tex.png",
        "textures\\ui",
        0,
        CompressionMethod::Bzip,
        b"image bytes",
    )];
    let out = pack_archive(&entries, &vec![]).unwrap();
    let (config, files) = do_unpack(&out.volumes, false).unwrap();
    assert_eq!(files[0].0, "textures/ui/tex.png");
    assert_eq!(files[0].1, b"image bytes".to_vec());
    assert_eq!(config.files[0].directory, "textures\\ui");
    assert_eq!(config.files[0].filename, "tex.png");
}

#[test]
fn test_unknown_volume_index_rejected() {
    let entries = vec![entry("a", "", 3, CompressionMethod::Copy, b"x")];
    let res = pack_archive(&entries, &vec![]);
    assert!(matches!(res, Err(DzipError::InvalidInput(_))));
}

#[test]
fn test_missing_volume_rejected() {
    // header names one auxiliary volume but only the main one is given
    let entries = vec![
        entry("a", "", 0, CompressionMethod::Copy, b"x"),
        entry("b", "", 1, CompressionMethod::Copy, b"y"),
    ];
    let out = pack_archive(&entries, &vec!["aux.dz".to_string()]).unwrap();
    let only_main = vec![out.volumes[0].clone()];
    assert!(do_unpack(&only_main, false).is_err());
}

#[test]
fn test_corrupt_stream_fatal_without_keep_raw() {
    // a chunk marked zlib whose bytes are not a zlib stream: fatal unless
    // keep_raw copies it through
    let entries = vec![entry("a", "", 0, CompressionMethod::Copy, b"NOTZLIB")];
    let mut out = pack_archive(&entries, &vec![]).unwrap();
    // flip the stored flag to zlib without touching the payload
    out.metadata.raw_chunks[0].flags = dzip::flags::CHUNK_ZLIB;
    let mut volume = write_header(&out.metadata);
    volume.extend_from_slice(b"NOTZLIB");
    let res = do_unpack(&vec![volume.clone()], false);
    assert!(matches!(res, Err(DzipError::Decompression(_))));
    let (_c, files) = do_unpack(&vec![volume], true).unwrap();
    assert_eq!(files[0].1, b"NOTZLIB".to_vec());
}

#[test]
fn test_invalid_volume_index_in_header() {
    // a chunk routed to a volume the header does not name is fatal
    let entries = vec![entry("a", "", 0, CompressionMethod::Copy, b"x")];
    let mut out = pack_archive(&entries, &vec![]).unwrap();
    out.metadata.raw_chunks[0].file_idx = 7;
    let mut volume = write_header(&out.metadata);
    volume.extend_from_slice(b"x");
    let res = do_unpack(&vec![volume], false);
    assert!(matches!(res, Err(DzipError::Generic(_))));
}

#[test]
fn test_size_correction_equal_offsets() {
    // two chunks of one volume sharing an offset are ill-formed; both
    // keep the header's recorded lengths
    let chunk = |id: u16, offset: u32, head: u32| RawChunk {
        id,
        offset,
        head_c_len: head,
        d_len: head,
        flags: 0,
        file_idx: 0,
        real_c_len: 0,
    };
    let chunks = vec![chunk(0, 100, 7), chunk(1, 100, 9), chunk(2, 500, 1000)];
    let corrected = correct_chunk_sizes(&chunks, &vec![900u64]);
    assert_eq!(corrected[0].real_c_len, 7);
    assert_eq!(corrected[1].real_c_len, 9);
    assert_eq!(corrected[2].real_c_len, 400);
}

#[test]
fn test_directory_table_deduplicated() {
    // two files in one directory share a single stored directory string
    let entries = vec![
        entry("a.png", "textures\\ui", 0, CompressionMethod::Copy, b"a"),
        entry("b.png", "textures\\ui", 0, CompressionMethod::Copy, b"b"),
        entry("c.txt", "", 0, CompressionMethod::Copy, b"c"),
    ];
    let out = pack_archive(&entries, &vec![]).unwrap();
    assert_eq!(out.metadata.directories.len(), 2);
    assert_eq!(out.metadata.directories[1], "textures\\ui");
    assert_eq!(out.metadata.map_entries[0].dir_idx, 1);
    assert_eq!(out.metadata.map_entries[1].dir_idx, 1);
    assert_eq!(out.metadata.map_entries[2].dir_idx, 0);
}

#[test]
fn test_pack_converts_directories_to_archive_form() {
    // a directory given with host separators is stored with backslashes
    let entries = vec![entry("t.png", "textures/ui", 0, CompressionMethod::Copy, b"t")];
    let out = pack_archive(&entries, &vec![]).unwrap();
    assert_eq!(out.metadata.directories[1], "textures\\ui");
    let (_c, files) = do_unpack(&out.volumes, false).unwrap();
    assert_eq!(files[0].0, "textures/ui/t.png");
}
