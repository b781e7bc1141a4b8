use vstd::prelude::*;
use vstd::string::StringExecFns;
use crate::error::DzipError;
use crate::flags::{CHUNK_ZERO, CHUNK_DZ, CHUNK_LZMA, CHUNK_ZLIB, CHUNK_BZIP, CHUNK_MP3,
    CHUNK_JPEG, CHUNK_COMBUF, CHUNK_COPYCOMP, CHUNK_RANDOMACCESS};

verus! {

/// What flate2's `ZlibEncoder` emits at the default level for the given
/// input; a function of the input bytes alone.
pub uninterp spec fn zlib_deflate(s: Seq<u8>) -> Seq<u8>;

/// What flate2's `ZlibDecoder` returns for the given input: the decoded
/// bytes, or nothing when the stream is not a valid zlib stream.
pub uninterp spec fn zlib_inflate(s: Seq<u8>) -> Option<Seq<u8>>;

/// What bzip2's `BzEncoder` emits at the default level for the given
/// input; a function of the input bytes alone.
pub uninterp spec fn bzip_deflate(s: Seq<u8>) -> Seq<u8>;

/// What bzip2's `BzDecoder` returns for the given input: the decoded
/// bytes, or nothing when the stream is not a valid bzip2 stream.
pub uninterp spec fn bzip_inflate(s: Seq<u8>) -> Option<Seq<u8>>;

/// What lzma-rust2's `LzmaWriter` emits at the default preset, with
/// header and end marker, for the given input; a function of the input
/// bytes alone.
pub uninterp spec fn lzma_deflate(s: Seq<u8>) -> Seq<u8>;

/// What lzma-rust2's `LzmaReader` returns for the given input: the
/// decoded bytes, or nothing when the stream is not a valid LZMA stream.
pub uninterp spec fn lzma_inflate(s: Seq<u8>) -> Option<Seq<u8>>;

/// Relies on flate2's `ZlibEncoder` at the default level: encoding into a
/// `Vec` cannot fail, the stream depends on the input bytes alone, and
/// flate2's decoder restores them.
#[verifier::external_body]
fn zlib_compress(data: &Vec<u8>) -> (r: Vec<u8>)
    ensures
        r@ == zlib_deflate(data@),
        zlib_inflate(r@) == Some(data@),
{
    let mut e = flate2::write::ZlibEncoder::new(Vec::new(), flate2::Compression::default());
    std::io::Write::write_all(&mut e, data.as_slice()).expect("writing to a Vec cannot fail");
    e.finish().expect("writing to a Vec cannot fail")
}

/// Relies on flate2's `ZlibDecoder`: success and output depend on the
/// input bytes alone.
#[verifier::external_body]
fn zlib_decompress(data: &Vec<u8>) -> (r: Result<Vec<u8>, DzipError>)
    ensures
        r is Ok <==> zlib_inflate(data@) is Some,
        r matches Ok(v) ==> zlib_inflate(data@) == Some(v@),
        r matches Err(e) ==> e matches DzipError::Decompression(_),
{
    let mut d = flate2::read::ZlibDecoder::new(data.as_slice());
    let mut out = Vec::new();
    match std::io::Read::read_to_end(&mut d, &mut out) {
        Ok(_) => Ok(out),
        Err(e) => Err(DzipError::Decompression(format!("zlib: {}", e))),
    }
}

/// Relies on bzip2's `BzEncoder` at the default level: encoding into a
/// `Vec` cannot fail, the stream depends on the input bytes alone, and
/// bzip2's decoder restores them.
#[verifier::external_body]
fn bzip_compress(data: &Vec<u8>) -> (r: Vec<u8>)
    ensures
        r@ == bzip_deflate(data@),
        bzip_inflate(r@) == Some(data@),
{
    let mut e = bzip2::write::BzEncoder::new(Vec::new(), bzip2::Compression::default());
    std::io::Write::write_all(&mut e, data.as_slice()).expect("writing to a Vec cannot fail");
    e.finish().expect("writing to a Vec cannot fail")
}

/// Relies on bzip2's `BzDecoder`: success and output depend on the input
/// bytes alone.
#[verifier::external_body]
fn bzip_decompress(data: &Vec<u8>) -> (r: Result<Vec<u8>, DzipError>)
    ensures
        r is Ok <==> bzip_inflate(data@) is Some,
        r matches Ok(v) ==> bzip_inflate(data@) == Some(v@),
        r matches Err(e) ==> e matches DzipError::Decompression(_),
{
    let mut d = bzip2::read::BzDecoder::new(data.as_slice());
    let mut out = Vec::new();
    match std::io::Read::read_to_end(&mut d, &mut out) {
        Ok(_) => Ok(out),
        Err(e) => Err(DzipError::Decompression(format!("bzip2: {}", e))),
    }
}

/// Relies on lzma-rust2's `LzmaWriter` with the default preset, header
/// and end marker: encoding into a `Vec` cannot fail, the stream depends
/// on the input bytes alone, and lzma-rust2's reader restores them.
#[verifier::external_body]
fn lzma_compress(data: &Vec<u8>) -> (r: Vec<u8>)
    ensures
        r@ == lzma_deflate(data@),
        lzma_inflate(r@) == Some(data@),
{
    let options = lzma_rust2::LzmaOptions::default();
    let mut w = lzma_rust2::LzmaWriter::new_use_header(Vec::new(), &options, None).expect(
        "writing to a Vec cannot fail",
    );
    std::io::Write::write_all(&mut w, data.as_slice()).expect("writing to a Vec cannot fail");
    w.finish().expect("writing to a Vec cannot fail")
}

/// Relies on lzma-rust2's `LzmaReader` without a memory limit: success
/// and output depend on the input bytes alone.
#[verifier::external_body]
fn lzma_decompress(data: &Vec<u8>) -> (r: Result<Vec<u8>, DzipError>)
    ensures
        r is Ok <==> lzma_inflate(data@) is Some,
        r matches Ok(v) ==> lzma_inflate(data@) == Some(v@),
        r matches Err(e) ==> e matches DzipError::Decompression(_),
{
    let mut d = match lzma_rust2::LzmaReader::new_mem_limit(data.as_slice(), u32::MAX, None) {
        Ok(d) => d,
        Err(e) => {
            return Err(DzipError::Decompression(format!("lzma: {}", e)));
        },
    };
    let mut out = Vec::new();
    match std::io::Read::read_to_end(&mut d, &mut out) {
        Ok(_) => Ok(out),
        Err(e) => Err(DzipError::Decompression(format!("lzma: {}", e))),
    }
}

/// A run of zero bytes of the given length.
pub open spec fn spec_zeros(n: nat) -> Seq<u8> {
    Seq::new(n, |i: int| 0u8)
}

/// Emit `len` zero bytes, whatever the input was.
fn zero_bytes(len: u32) -> (r: Vec<u8>)
    ensures
        r@ == spec_zeros(len as nat),
{
    let v = vec![0u8; len as usize];
    proof {
        assert(v@ =~= spec_zeros(len as nat));
    }
    v
}

/// The built-in stream decoders a registry entry can name.
#[derive(Debug, Clone, Copy, PartialEq, Eq, Structural)]
pub enum DecompressorKind {
    /// Ignore the payload and emit zero bytes.
    Zero,
    /// Hand the payload through unchanged.
    PassThrough,
    /// LZMA stream with header and end marker.
    Lzma,
    /// zlib-wrapped deflate stream.
    Zlib,
    /// bzip2 stream.
    Bzip,
}

/// The built-in stream encoders a registry entry can name.
#[derive(Debug, Clone, Copy, PartialEq, Eq, Structural)]
pub enum CompressorKind {
    /// LZMA stream with header and end marker.
    Lzma,
    /// zlib-wrapped deflate stream.
    Zlib,
    /// bzip2 stream.
    Bzip,
}

/// What one decoder yields on the given payload: the decoded bytes, or
/// nothing when the stream is invalid for it.
pub open spec fn spec_apply_decompressor(k: DecompressorKind, input: Seq<u8>, len: u32) -> Option<
    Seq<u8>,
> {
    match k {
        DecompressorKind::Zero => Some(spec_zeros(len as nat)),
        DecompressorKind::PassThrough => Some(input),
        DecompressorKind::Lzma => lzma_inflate(input),
        DecompressorKind::Zlib => zlib_inflate(input),
        DecompressorKind::Bzip => bzip_inflate(input),
    }
}

/// What one encoder emits on the given payload.
pub open spec fn spec_apply_compressor(k: CompressorKind, input: Seq<u8>) -> Seq<u8> {
    match k {
        CompressorKind::Lzma => lzma_deflate(input),
        CompressorKind::Zlib => zlib_deflate(input),
        CompressorKind::Bzip => bzip_deflate(input),
    }
}

/// The first registered decoder whose mask intersects the flags.
pub open spec fn spec_select_decompressor(entries: Seq<(u16, DecompressorKind)>, flags: u16) -> Option<
    DecompressorKind,
>
    decreases entries.len(),
{
    if entries.len() == 0 {
        None
    } else if flags & entries[0].0 != 0 {
        Some(entries[0].1)
    } else {
        spec_select_decompressor(entries.drop_first(), flags)
    }
}

/// The first registered encoder whose mask intersects the flags.
pub open spec fn spec_select_compressor(entries: Seq<(u16, CompressorKind)>, flags: u16) -> Option<
    CompressorKind,
>
    decreases entries.len(),
{
    if entries.len() == 0 {
        None
    } else if flags & entries[0].0 != 0 {
        Some(entries[0].1)
    } else {
        spec_select_compressor(entries.drop_first(), flags)
    }
}

/// An ordered table of codecs: the first entry whose flag mask intersects
/// a chunk's flags handles it, and a chunk nothing claims is copied
/// verbatim.
pub struct CodecRegistry {
    decompressors: Vec<(u16, DecompressorKind)>,
    compressors: Vec<(u16, CompressorKind)>,
}

impl CodecRegistry {
    /// The decoder table, for specification purposes.
    pub closed spec fn spec_decompressors(self) -> Seq<(u16, DecompressorKind)> {
        self.decompressors@
    }

    /// The encoder table, for specification purposes.
    pub closed spec fn spec_compressors(self) -> Seq<(u16, CompressorKind)> {
        self.compressors@
    }

    /// An empty registry: everything is copied verbatim.
    pub fn new() -> (r: CodecRegistry)
        ensures
            r.spec_decompressors() == Seq::<(u16, DecompressorKind)>::empty(),
            r.spec_compressors() == Seq::<(u16, CompressorKind)>::empty(),
    {
        CodecRegistry { decompressors: Vec::new(), compressors: Vec::new() }
    }

    /// Register a decoder for the given flag mask; earlier entries win.
    pub fn register_decompressor(&mut self, mask: u16, decompressor: DecompressorKind)
        ensures
            final(self).spec_decompressors() == old(self).spec_decompressors().push(
                (mask, decompressor),
            ),
            final(self).spec_compressors() == old(self).spec_compressors(),
    {
        self.decompressors.push((mask, decompressor));
    }

    /// Register an encoder for the given flag mask; earlier entries win.
    pub fn register_compressor(&mut self, mask: u16, compressor: CompressorKind)
        ensures
            final(self).spec_compressors() == old(self).spec_compressors().push(
                (mask, compressor),
            ),
            final(self).spec_decompressors() == old(self).spec_decompressors(),
    {
        self.compressors.push((mask, compressor));
    }

    /// Decode one payload: the first decoder whose mask intersects the
    /// flags runs; with no match the payload is copied verbatim.
    pub fn decompress(&self, input: &Vec<u8>, flags: u16, len: u32) -> (r: Result<
        Vec<u8>,
        DzipError,
    >)
        ensures
            match spec_select_decompressor(self.spec_decompressors(), flags) {
                Some(k) => match spec_apply_decompressor(k, input@, len) {
                    Some(v) => r matches Ok(o) && o@ == v,
                    None => r matches Err(e) && e matches DzipError::Decompression(_),
                },
                None => r matches Ok(o) && o@ == input@,
            },
    {
        let ghost table = self.decompressors@;
        proof {
            assert(table.skip(0) =~= table);
        }
        let mut i: usize = 0;
        while i < self.decompressors.len()
            invariant
                i <= table.len(),
                table == self.decompressors@,
                spec_select_decompressor(table, flags) == spec_select_decompressor(
                    table.skip(i as int),
                    flags,
                ),
        decreases table.len() - i,
        {
            let entry = self.decompressors[i];
            proof {
                assert(table.skip(i as int)[0] == table[i as int]);
                assert(table.skip(i as int).drop_first() =~= table.skip(i + 1 as int));
            }
            if flags & entry.0 != 0 {
                return match entry.1 {
                    DecompressorKind::Zero => Ok(zero_bytes(len)),
                    DecompressorKind::PassThrough => Ok(input.clone()),
                    DecompressorKind::Lzma => lzma_decompress(input),
                    DecompressorKind::Zlib => zlib_decompress(input),
                    DecompressorKind::Bzip => bzip_decompress(input),
                };
            }
            i = i + 1;
        }
        proof {
            assert(table.skip(table.len() as int).len() == 0);
        }
        Ok(input.clone())
    }

    /// Encode one payload: the first encoder whose mask intersects the
    /// flags runs; with no match the payload is copied verbatim.
    pub fn compress(&self, input: &Vec<u8>, flags: u16) -> (r: Vec<u8>)
        ensures
            r@ == match spec_select_compressor(self.spec_compressors(), flags) {
                Some(k) => spec_apply_compressor(k, input@),
                None => input@,
            },
    {
        let ghost table = self.compressors@;
        proof {
            assert(table.skip(0) =~= table);
        }
        let mut i: usize = 0;
        while i < self.compressors.len()
            invariant
                i <= table.len(),
                table == self.compressors@,
                spec_select_compressor(table, flags) == spec_select_compressor(
                    table.skip(i as int),
                    flags,
                ),
        decreases table.len() - i,
        {
            let entry = self.compressors[i];
            proof {
                assert(table.skip(i as int)[0] == table[i as int]);
                assert(table.skip(i as int).drop_first() =~= table.skip(i + 1 as int));
            }
            if flags & entry.0 != 0 {
                return match entry.1 {
                    CompressorKind::Lzma => lzma_compress(input),
                    CompressorKind::Zlib => zlib_compress(input),
                    CompressorKind::Bzip => bzip_compress(input),
                };
            }
            i = i + 1;
        }
        proof {
            assert(table.skip(table.len() as int).len() == 0);
        }
        input.clone()
    }
}

/// The default decoder table, in the format's priority order, and the
/// default encoder table.
pub fn create_default_registry() -> (r: CodecRegistry)
    ensures
        r.spec_decompressors() == seq![
            (CHUNK_ZERO, DecompressorKind::Zero),
            (CHUNK_DZ, DecompressorKind::PassThrough),
            (CHUNK_LZMA, DecompressorKind::Lzma),
            (CHUNK_ZLIB, DecompressorKind::Zlib),
            (CHUNK_BZIP, DecompressorKind::Bzip),
        ],
        r.spec_compressors() == seq![
            (CHUNK_LZMA, CompressorKind::Lzma),
            (CHUNK_ZLIB, CompressorKind::Zlib),
            (CHUNK_BZIP, CompressorKind::Bzip),
        ],
{
    let mut reg = CodecRegistry::new();
    reg.register_decompressor(CHUNK_ZERO, DecompressorKind::Zero);
    reg.register_decompressor(CHUNK_DZ, DecompressorKind::PassThrough);
    reg.register_decompressor(CHUNK_LZMA, DecompressorKind::Lzma);
    reg.register_decompressor(CHUNK_ZLIB, DecompressorKind::Zlib);
    reg.register_decompressor(CHUNK_BZIP, DecompressorKind::Bzip);
    reg.register_compressor(CHUNK_LZMA, CompressorKind::Lzma);
    reg.register_compressor(CHUNK_ZLIB, CompressorKind::Zlib);
    reg.register_compressor(CHUNK_BZIP, CompressorKind::Bzip);
    proof {
        assert(reg.spec_decompressors() =~= seq![
            (CHUNK_ZERO, DecompressorKind::Zero),
            (CHUNK_DZ, DecompressorKind::PassThrough),
            (CHUNK_LZMA, DecompressorKind::Lzma),
            (CHUNK_ZLIB, DecompressorKind::Zlib),
            (CHUNK_BZIP, DecompressorKind::Bzip),
        ]);
        assert(reg.spec_compressors() =~= seq![
            (CHUNK_LZMA, CompressorKind::Lzma),
            (CHUNK_ZLIB, CompressorKind::Zlib),
            (CHUNK_BZIP, CompressorKind::Bzip),
        ]);
    }
    reg
}

/// The compression methods the writer can choose for a file.
#[derive(Debug, Clone, Copy, PartialEq, Eq, Structural)]
pub enum CompressionMethod {
    Copy,
    Zero,
    Dz,
    Zlib,
    Bzip,
    Lzma,
    Mp3,
    Jpeg,
    Combuf,
    RandomAccess,
}

/// The flag bits the writer records for a chosen method; a plain copy
/// records no bits at all.
pub open spec fn spec_flag_of(method: CompressionMethod) -> u16 {
    match method {
        CompressionMethod::Copy => 0,
        CompressionMethod::Zero => CHUNK_ZERO,
        CompressionMethod::Dz => CHUNK_DZ,
        CompressionMethod::Zlib => CHUNK_ZLIB,
        CompressionMethod::Bzip => CHUNK_BZIP,
        CompressionMethod::Lzma => CHUNK_LZMA,
        CompressionMethod::Mp3 => CHUNK_MP3,
        CompressionMethod::Jpeg => CHUNK_JPEG,
        CompressionMethod::Combuf => CHUNK_COMBUF,
        CompressionMethod::RandomAccess => CHUNK_RANDOMACCESS,
    }
}

/// The payload the writer stores for a chosen method: an empty payload
/// for the zero codec, a real stream for the three compressors, and the
/// bytes unchanged for everything else.
pub open spec fn spec_compress_payload(method: CompressionMethod, s: Seq<u8>) -> Seq<u8> {
    match method {
        CompressionMethod::Zero => Seq::empty(),
        CompressionMethod::Zlib => zlib_deflate(s),
        CompressionMethod::Bzip => bzip_deflate(s),
        CompressionMethod::Lzma => lzma_deflate(s),
        _ => s,
    }
}

/// Compress one file's bytes for the chosen method, returning the flag
/// bits to record and the payload to store.
pub fn compress_data(data: &Vec<u8>, method: CompressionMethod) -> (r: (u16, Vec<u8>))
    ensures
        r.0 == spec_flag_of(method),
        r.1@ == spec_compress_payload(method, data@),
        method is Zlib ==> zlib_inflate(r.1@) == Some(data@),
        method is Bzip ==> bzip_inflate(r.1@) == Some(data@),
        method is Lzma ==> lzma_inflate(r.1@) == Some(data@),
{
    match method {
        CompressionMethod::Copy => (0, data.clone()),
        CompressionMethod::Zero => (crate::flags::CHUNK_ZERO, Vec::new()),
        CompressionMethod::Dz => (crate::flags::CHUNK_DZ, data.clone()),
        CompressionMethod::Zlib => (crate::flags::CHUNK_ZLIB, zlib_compress(data)),
        CompressionMethod::Bzip => (crate::flags::CHUNK_BZIP, bzip_compress(data)),
        CompressionMethod::Lzma => (crate::flags::CHUNK_LZMA, lzma_compress(data)),
        CompressionMethod::Mp3 => (crate::flags::CHUNK_MP3, data.clone()),
        CompressionMethod::Jpeg => (crate::flags::CHUNK_JPEG, data.clone()),
        CompressionMethod::Combuf => (crate::flags::CHUNK_COMBUF, data.clone()),
        CompressionMethod::RandomAccess => (crate::flags::CHUNK_RANDOMACCESS, data.clone()),
    }
}

/// The name of a compression method, as repack descriptors spell it.
pub open spec fn spec_method_name(method: CompressionMethod) -> Seq<char> {
    match method {
        CompressionMethod::Copy => "Copy"@,
        CompressionMethod::Zero => "Zero"@,
        CompressionMethod::Dz => "Dz"@,
        CompressionMethod::Zlib => "Zlib"@,
        CompressionMethod::Bzip => "Bzip"@,
        CompressionMethod::Lzma => "Lzma"@,
        CompressionMethod::Mp3 => "Mp3"@,
        CompressionMethod::Jpeg => "Jpeg"@,
        CompressionMethod::Combuf => "Combuf"@,
        CompressionMethod::RandomAccess => "RandomAccess"@,
    }
}

/// Spell a compression method the way repack descriptors do.
pub fn method_name(method: CompressionMethod) -> (r: String)
    ensures
        r@ == spec_method_name(method),
{
    match method {
        CompressionMethod::Copy => String::from_str("Copy"),
        CompressionMethod::Zero => String::from_str("Zero"),
        CompressionMethod::Dz => String::from_str("Dz"),
        CompressionMethod::Zlib => String::from_str("Zlib"),
        CompressionMethod::Bzip => String::from_str("Bzip"),
        CompressionMethod::Lzma => String::from_str("Lzma"),
        CompressionMethod::Mp3 => String::from_str("Mp3"),
        CompressionMethod::Jpeg => String::from_str("Jpeg"),
        CompressionMethod::Combuf => String::from_str("Combuf"),
        CompressionMethod::RandomAccess => String::from_str("RandomAccess"),
    }
}

/// Parse a method name from a repack descriptor; unknown names yield
/// nothing.
pub fn method_of_name(name: &str) -> (r: Option<CompressionMethod>)
    ensures
        match r {
            Some(m) => name@ == spec_method_name(m),
            None => forall|m: CompressionMethod| name@ != spec_method_name(m),
        },
{
    let owned = String::from_str(name);
    if owned == String::from_str("Copy") {
        Some(CompressionMethod::Copy)
    } else if owned == String::from_str("Zero") {
        Some(CompressionMethod::Zero)
    } else if owned == String::from_str("Dz") {
        Some(CompressionMethod::Dz)
    } else if owned == String::from_str("Zlib") {
        Some(CompressionMethod::Zlib)
    } else if owned == String::from_str("Bzip") {
        Some(CompressionMethod::Bzip)
    } else if owned == String::from_str("Lzma") {
        Some(CompressionMethod::Lzma)
    } else if owned == String::from_str("Mp3") {
        Some(CompressionMethod::Mp3)
    } else if owned == String::from_str("Jpeg") {
        Some(CompressionMethod::Jpeg)
    } else if owned == String::from_str("Combuf") {
        Some(CompressionMethod::Combuf)
    } else if owned == String::from_str("RandomAccess") {
        Some(CompressionMethod::RandomAccess)
    } else {
        None
    }
}

/// The method a regenerated descriptor records for a chunk's flag mask:
/// the first named bit in the reader's reporting order, a plain copy for
/// mask zero, and the random-access mark as the final fallback.
pub open spec fn spec_method_of_flags(flags: u16) -> CompressionMethod {
    if flags & CHUNK_ZLIB != 0 {
        CompressionMethod::Zlib
    } else if flags & CHUNK_BZIP != 0 {
        CompressionMethod::Bzip
    } else if flags & CHUNK_COPYCOMP != 0 || flags == 0 {
        CompressionMethod::Copy
    } else if flags & CHUNK_ZERO != 0 {
        CompressionMethod::Zero
    } else if flags & CHUNK_MP3 != 0 {
        CompressionMethod::Mp3
    } else if flags & CHUNK_JPEG != 0 {
        CompressionMethod::Jpeg
    } else if flags & CHUNK_LZMA != 0 {
        CompressionMethod::Lzma
    } else if flags & CHUNK_DZ != 0 {
        CompressionMethod::Dz
    } else if flags & CHUNK_COMBUF != 0 {
        CompressionMethod::Combuf
    } else {
        CompressionMethod::RandomAccess
    }
}

/// Name the method a chunk's flag mask stands for, for regenerated
/// descriptors.
pub fn method_of_flags(flags: u16) -> (r: CompressionMethod)
    ensures
        r == spec_method_of_flags(flags),
{
    if flags & CHUNK_ZLIB != 0 {
        CompressionMethod::Zlib
    } else if flags & CHUNK_BZIP != 0 {
        CompressionMethod::Bzip
    } else if flags & CHUNK_COPYCOMP != 0 || flags == 0 {
        CompressionMethod::Copy
    } else if flags & CHUNK_ZERO != 0 {
        CompressionMethod::Zero
    } else if flags & CHUNK_MP3 != 0 {
        CompressionMethod::Mp3
    } else if flags & CHUNK_JPEG != 0 {
        CompressionMethod::Jpeg
    } else if flags & CHUNK_LZMA != 0 {
        CompressionMethod::Lzma
    } else if flags & CHUNK_DZ != 0 {
        CompressionMethod::Dz
    } else if flags & CHUNK_COMBUF != 0 {
        CompressionMethod::Combuf
    } else {
        CompressionMethod::RandomAccess
    }
}

} // verus!
