//! Engine for the DZ multi-volume archive format: header parsing and
//! serialization, codec-flag handling, path sanitization, chunk size
//! correction, and the pack/unpack pipelines, all specified and verified.
use vstd::prelude::*;

pub mod bytes;
pub mod codec;
pub mod correct;
pub mod error;
pub mod flags;
pub mod format;
pub mod model;
pub mod pack;
pub mod path;
pub mod unpack;
pub mod utils;

verus! {

/// Little-endian magic number at the start of every archive; spells "DTRZ".
pub const MAGIC: u32 = 0x5A525444;

/// Sentinel that ends each file's chunk-id list in the file map.
pub const CHUNK_LIST_TERMINATOR: u16 = 0xFFFF;

} // verus!
