use dzip::codec::{create_default_registry, CodecRegistry};
use dzip::flags::{decode_flags, encode_flags, CHUNK_BZIP, CHUNK_LZMA, CHUNK_MP3, CHUNK_ZERO,
    CHUNK_ZLIB};
use dzip::path::{from_archive_format, resolve_relative_path, sanitize_path, to_archive_format};

fn setup_registry() -> CodecRegistry {
    create_default_registry()
}

#[test]
fn test_to_archive_format() {
    let p = "folder/file.txt";
    assert_eq!(to_archive_format(p), "folder\\file.txt");
}

#[test]
fn test_sanitize_path_valid() {
    let p = "folder/file.txt";
    assert!(sanitize_path(p).is_ok());
}

#[test]
fn test_sanitize_path_parent_dir() {
    let p = "../file.txt";
    assert!(sanitize_path(p).is_err());
    let p = "folder/../file.txt";
    assert!(sanitize_path(p).is_err());
}

#[test]
fn test_sanitize_path_absolute() {
    let p = "/etc/passwd";
    // Should become relative "etc/passwd"
    let sanitized = sanitize_path(p).unwrap();
    assert_eq!(sanitized, "etc/passwd");
}

#[test]
fn test_resolve_relative_path_mixed() {
    let p = "folder\\subfolder/file.txt";
    let resolved = resolve_relative_path(p).unwrap();
    let expected = "folder/subfolder/file.txt";
    assert_eq!(resolved, expected);
}

#[test]
fn test_resolve_relative_path_zip_slip() {
    let p = "folder\\../file.txt";
    assert!(resolve_relative_path(p).is_err());
}

#[test]
fn test_from_archive_format_traversal() {
    // the path-traversal scenario from the format's threat model
    let r = from_archive_format("..\\etc/passwd");
    assert!(matches!(r, Err(dzip::error::DzipError::InvalidInput(_))));
}

#[test]
fn test_from_archive_format_empty_is_current_dir() {
    assert_eq!(from_archive_format("").unwrap(), ".");
}

#[test]
fn test_sanitize_path_security() {
    let base = "/tmp/sandbox";

    // 1. Normal path: should succeed and append to base
    let res = dzip::utils::sanitize_path(base, "textures/player.png");
    assert!(res.is_ok());
    assert_eq!(res.unwrap(), "/tmp/sandbox/textures/player.png");

    // 2. Directory traversal attack (ParentDir): must return error
    let res = dzip::utils::sanitize_path(base, "../etc/passwd");
    assert!(res.is_err());
    let err_msg = res.unwrap_err().message();
    assert!(
        err_msg.contains("Directory traversal"),
        "Should detect directory traversal"
    );

    // 3. Embedded directory traversal: must return error
    let res = dzip::utils::sanitize_path(base, "images/../../secret.txt");
    assert!(res.is_err());

    // 4. A Windows drive prefix is a single plain component on this host,
    // as it is for the path type's component iterator, so it is kept.
    let res = dzip::utils::sanitize_path(base, "C:\\Windows\\System32");
    assert!(res.is_ok());
}

#[test]
fn test_sanitize_path_root_handling() {
    let base = "/app/data";

    // 5. Starts with root directory: the root is dropped, so the path
    // stays beneath the base: "/var/log" -> "/app/data/var/log"
    let res = dzip::utils::sanitize_path(base, "/var/log");
    assert!(res.is_ok());
    assert_eq!(res.unwrap(), "/app/data/var/log");
}

#[test]
fn test_flags_roundtrip() {
    // Test consistency of Flag encoding and decoding
    let flags = vec!["LZMA".to_string(), "ZLIB".to_string(), "MP3".to_string()];

    // Encode
    let encoded = encode_flags(&flags);
    assert_eq!(encoded & CHUNK_LZMA, CHUNK_LZMA);
    assert_eq!(encoded & CHUNK_ZLIB, CHUNK_ZLIB);
    assert_eq!(encoded & CHUNK_MP3, CHUNK_MP3);

    // Decode
    let decoded = decode_flags(encoded);
    assert!(decoded.contains(&"LZMA".to_string()));
    assert!(decoded.contains(&"ZLIB".to_string()));
    assert!(decoded.contains(&"MP3".to_string()));

    // Ensure no extra flags
    assert!(!decoded.contains(&"BZIP".to_string()));

    // And the exact round trip for masks of defined bits
    assert_eq!(encode_flags(&decode_flags(encoded)), encoded);
    assert_eq!(encode_flags(&decode_flags(0x39C)), 0x39C);
}

#[test]
fn test_empty_flags() {
    let empty: Vec<String> = Vec::new();
    let encoded = encode_flags(&empty);
    assert_eq!(encoded, 0); // 0 defaults to COPY

    let decoded = decode_flags(0);
    assert_eq!(decoded.len(), 1);
    assert_eq!(decoded[0], "COPY");
}

#[test]
fn test_zero_decompressor() {
    let registry = setup_registry();
    // ZERO algorithm needs no input data, only length
    let input: Vec<u8> = vec![];
    let target_len = 100;

    // Execute decompression: expect 100 zero bytes output
    let res = registry.decompress(&input, CHUNK_ZERO, target_len);
    assert!(res.is_ok());

    let result_data = res.unwrap();
    assert_eq!(result_data.len(), target_len as usize);
    assert!(result_data.iter().all(|&b| b == 0));
}

#[test]
fn test_copy_fallback_decompress() {
    let registry = setup_registry();
    let raw_data = b"Hello, Marmalade SDK!".to_vec();

    // Use 0 (COPY) or unknown Flag
    // Expected behavior: directly copy input to output
    let res = registry.decompress(&raw_data, 0, raw_data.len() as u32);
    assert!(res.is_ok());

    assert_eq!(res.unwrap(), raw_data);
}

#[test]
fn test_unknown_flag_fallback() {
    let registry = setup_registry();
    let raw_data = b"Data with unknown flag".to_vec();

    // Use an unregistered Flag, e.g., 0x8000
    let unknown_flag = 0x8000;

    // Expected: decompress defaults to COPY when no decoder is found
    let res = registry.decompress(&raw_data, unknown_flag, raw_data.len() as u32);
    assert!(res.is_ok());
    assert_eq!(res.unwrap(), raw_data);
}

#[test]
fn test_lzma_roundtrip() {
    // Integration test: verify LZMA compression and decompression roundtrip
    let registry = setup_registry();
    let original_data = b"Repeat Repeat Repeat Repeat Repeat".to_vec();

    // 1. Compress
    let compressed_bytes = registry.compress(&original_data, CHUNK_LZMA);
    // Compressed data should differ from original (usually smaller, or has LZMA header)
    assert_ne!(compressed_bytes, original_data);

    // 2. Decompress
    let decompress_res = registry.decompress(
        &compressed_bytes,
        CHUNK_LZMA,
        original_data.len() as u32,
    );
    assert!(decompress_res.is_ok());

    assert_eq!(decompress_res.unwrap(), original_data);
}

#[test]
fn test_bzip_roundtrip() {
    let registry = setup_registry();
    let original_data = b"bzip2 bzip2 bzip2 bzip2".to_vec();
    let compressed = registry.compress(&original_data, CHUNK_BZIP);
    assert_ne!(compressed, original_data);
    let restored = registry.decompress(&compressed, CHUNK_BZIP, original_data.len() as u32);
    assert_eq!(restored.unwrap(), original_data);
}

#[test]
fn test_zlib_garbage_fails() {
    let registry = setup_registry();
    let garbage = vec![1u8, 2, 3, 4, 5];
    let res = registry.decompress(&garbage, CHUNK_ZLIB, 5);
    assert!(matches!(res, Err(dzip::error::DzipError::Decompression(_))));
}
