use vstd::prelude::*;
use vstd::string::StringExecFns;

verus! {

/// Error kinds surfaced by the archive engine.
#[derive(Debug)]
pub enum DzipError {
    /// The four magic bytes did not match; carries the value that was found.
    InvalidMagic(u32),
    /// The input ended before a record could be read completely.
    Io(String),
    /// A codec failed while encoding; carries the reason.
    Compression(String),
    /// A codec failed while decoding; carries the reason.
    Decompression(String),
    /// A chunk's flag combination has no registered decoder.  The
    /// in-memory pipelines skip such chunks or copy them raw, so this
    /// kind is reserved for callers that must abort instead.
    UnsupportedCompression(u16),
    /// A path or header field was rejected; carries the reason.
    InvalidInput(String),
    /// Fallback for other invariant violations.
    Generic(String),
}

impl DzipError {
    /// Human-readable description of the error; the carried reason where
    /// the variant holds one.
    pub fn message(&self) -> (r: String)
        ensures
            match self {
                DzipError::InvalidMagic(_) => r@ == "invalid archive magic"@,
                DzipError::Io(m) => r@ == m@,
                DzipError::Compression(m) => r@ == m@,
                DzipError::Decompression(m) => r@ == m@,
                DzipError::UnsupportedCompression(_) => r@ == "unsupported compression flags"@,
                DzipError::InvalidInput(m) => r@ == m@,
                DzipError::Generic(m) => r@ == m@,
            },
    {
        match self {
            DzipError::InvalidMagic(_) => String::from_str("invalid archive magic"),
            DzipError::Io(m) => m.clone(),
            DzipError::Compression(m) => m.clone(),
            DzipError::Decompression(m) => m.clone(),
            DzipError::UnsupportedCompression(_) => String::from_str(
                "unsupported compression flags",
            ),
            DzipError::InvalidInput(m) => m.clone(),
            DzipError::Generic(m) => m.clone(),
        }
    }
}

} // verus!
