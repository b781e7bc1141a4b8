use vstd::prelude::*;
use vstd::string::StringExecFns;
use vstd::string::StrSliceExecFns;
use crate::codec::{CodecRegistry, spec_select_decompressor, spec_apply_decompressor,
    DecompressorKind, create_default_registry};
use crate::correct::{correct_chunk_sizes, spec_corrected_len};
use crate::error::DzipError;
use crate::flags::{CHUNK_ZERO, CHUNK_DZ, CHUNK_LZMA, CHUNK_ZLIB, CHUNK_BZIP, CHUNK_COPYCOMP,
    decode_flags, spec_decode_flags};
use crate::format::{wf_metadata, matches_model, spec_load, MetaModel};
use crate::model::{ArchiveMetadata, ArchiveMeta, ChunkDef, Config, FileEntry, RawChunk};
use crate::path::{spec_split, spec_split_any, spec_scan, spec_join, any_sep,
    resolve_relative_path};

verus! {

/// The decoder table the format prescribes, in priority order.
pub open spec fn spec_default_decompressors() -> Seq<(u16, DecompressorKind)> {
    seq![
        (CHUNK_ZERO, DecompressorKind::Zero),
        (CHUNK_DZ, DecompressorKind::PassThrough),
        (CHUNK_LZMA, DecompressorKind::Lzma),
        (CHUNK_ZLIB, DecompressorKind::Zlib),
        (CHUNK_BZIP, DecompressorKind::Bzip),
    ]
}

/// Whether a flag mask names something the pipeline can really decode:
/// the bare copy, the explicit copy bit, or one of the stream codecs.
/// Marks like MP3 or JPEG are not decodable and are surfaced as
/// unsupported.
pub open spec fn spec_flags_supported(flags: u16) -> bool {
    flags == 0 || flags & (CHUNK_ZERO | CHUNK_DZ | CHUNK_LZMA | CHUNK_ZLIB | CHUNK_BZIP
        | CHUNK_COPYCOMP) != 0
}

/// What decoding one payload yields: the first matching decoder in the
/// priority order runs, and a mask nothing claims is passed through.
pub open spec fn spec_decode_payload(data: Seq<u8>, flags: u16, d_len: u32) -> Option<Seq<u8>> {
    match spec_select_decompressor(spec_default_decompressors(), flags) {
        Some(k) => spec_apply_decompressor(k, data, d_len),
        None => Some(data),
    }
}

/// The stored bytes of a chunk within its volume: `real_c_len` bytes from
/// `offset`, clipped to the volume's end (a seek past the end reads
/// nothing).
pub open spec fn spec_chunk_slice(volumes: Seq<Seq<u8>>, c: RawChunk) -> Seq<u8> {
    let vol = volumes[c.file_idx as int];
    let lo = if c.offset as int <= vol.len() {
        c.offset as int
    } else {
        vol.len() as int
    };
    let hi = if c.offset + c.real_c_len <= vol.len() {
        c.offset + c.real_c_len
    } else {
        vol.len() as int
    };
    vol.subrange(lo, hi)
}

/// The bytes extraction writes for one file's chunk-id list, in order.
/// An id with no chunk is skipped.  A chunk naming a missing volume is
/// fatal.  An unsupported mask copies the raw bytes under `keep_raw` and
/// is skipped otherwise.  A decoder failure copies the raw bytes under
/// `keep_raw` and is fatal otherwise.  `None` is the fatal outcome.
pub open spec fn spec_extract_chunks(
    chunks: Seq<RawChunk>,
    volumes: Seq<Seq<u8>>,
    ids: Seq<u16>,
    keep_raw: bool,
) -> Option<Seq<u8>>
    decreases ids.len(),
{
    if ids.len() == 0 {
        Some(Seq::empty())
    } else {
        let cid = ids[0];
        let rest = spec_extract_chunks(chunks, volumes, ids.drop_first(), keep_raw);
        if cid as int >= chunks.len() {
            rest
        } else {
            let c = chunks[cid as int];
            if c.file_idx as int >= volumes.len() {
                None
            } else {
                let data = spec_chunk_slice(volumes, c);
                if !spec_flags_supported(c.flags) {
                    if keep_raw {
                        match rest {
                            Some(r) => Some(data + r),
                            None => None,
                        }
                    } else {
                        rest
                    }
                } else {
                    match spec_decode_payload(data, c.flags, c.d_len) {
                        Some(v) => match rest {
                            Some(r) => Some(v + r),
                            None => None,
                        },
                        None => if keep_raw {
                            match rest {
                                Some(r) => Some(data + r),
                                None => None,
                            }
                        } else {
                            None
                        },
                    }
                }
            }
        }
    }
}

/// The archive-format path of file `i`: its directory string (when it has
/// one) joined to its name with a backslash, unless the directory already
/// ends in a separator.
pub open spec fn spec_archive_path(m: ArchiveMetadata, i: int) -> Seq<char> {
    let fname = m.user_files@[i]@;
    let dir_idx = m.map_entries@[i].dir_idx as int;
    let raw_dir = if dir_idx < m.directories@.len() {
        m.directories@[dir_idx]@
    } else {
        "."@
    };
    if raw_dir == "."@ || raw_dir.len() == 0 {
        fname
    } else if any_sep(raw_dir.last()) {
        raw_dir + fname
    } else {
        raw_dir + seq!['\\'] + fname
    }
}

/// A plan for extraction: the parsed header and its chunks with
/// corrected lengths.
pub struct UnpackPlan {
    pub metadata: ArchiveMetadata,
    pub processed_chunks: Vec<RawChunk>,
}

/// The volume lengths a metadata record and the auxiliary lengths imply:
/// the main file's length first.
pub open spec fn spec_volume_lens(m: ArchiveMetadata, aux_lens: Seq<u64>) -> Seq<u64> {
    seq![m.main_file_len] + aux_lens
}

impl UnpackPlan {
    /// A plan is usable when its header is well-formed and its chunk list
    /// pairs with the header's, numbered in order.
    pub open spec fn wf(self) -> bool {
        &&& wf_metadata(self.metadata)
        &&& self.processed_chunks@.len() == self.metadata.raw_chunks@.len()
        &&& forall|i: int|
            0 <= i < self.processed_chunks@.len() ==> (#[trigger] self.processed_chunks@[i]).id
                == i
    }

    /// Build the extraction plan: check that every chunk's volume exists,
    /// then correct the chunk lengths from the volume lengths.
    /// `aux_lens[k]` is the byte length of the volume named
    /// `split_file_names[k]`.
    pub fn build(metadata: ArchiveMetadata, aux_lens: &Vec<u64>) -> (r: Result<
        UnpackPlan,
        DzipError,
    >)
        requires
            wf_metadata(metadata),
            aux_lens@.len() == metadata.split_file_names@.len(),
        ensures
            match r {
                Ok(plan) => {
                    &&& plan.wf()
                    &&& plan.metadata == metadata
                    &&& plan.processed_chunks@.len() == metadata.raw_chunks@.len()
                    &&& (forall|i: int|
                        0 <= i < metadata.raw_chunks@.len() ==> #[trigger] plan.processed_chunks@[
                            i
                        ] == (RawChunk {
                            real_c_len: spec_corrected_len(
                                metadata.raw_chunks@,
                                spec_volume_lens(metadata, aux_lens@),
                                i,
                            ),
                            ..metadata.raw_chunks@[i]
                        }))
                    &&& (forall|i: int|
                        0 <= i < metadata.raw_chunks@.len() ==> (
                        #[trigger] metadata.raw_chunks@[i].file_idx as int) <= aux_lens@.len())
                    &&& plan.processed_chunks@ == spec_corrected_chunks(
                        metadata.raw_chunks@,
                        spec_volume_lens(metadata, aux_lens@),
                    )
                },
                Err(e) => (exists|i: int|
                    0 <= i < metadata.raw_chunks@.len() && (
                    #[trigger] metadata.raw_chunks@[i].file_idx as int) > aux_lens@.len())
                    && e matches DzipError::Generic(_),
            },
    {
        let mut lens: Vec<u64> = Vec::new();
        lens.push(metadata.main_file_len);
        let mut k: usize = 0;
        while k < aux_lens.len()
            invariant
                k <= aux_lens@.len(),
                lens@.len() == 1 + k,
                lens@[0] == metadata.main_file_len,
                forall|j: int| 0 <= j < k ==> #[trigger] lens@[j + 1] == aux_lens@[j],
            decreases aux_lens@.len() - k,
        {
            lens.push(aux_lens[k]);
            k = k + 1;
        }
        proof {
            assert(lens@ =~= spec_volume_lens(metadata, aux_lens@)) by {
                assert(forall|j: int|
                    1 <= j < lens@.len() ==> #[trigger] lens@[j] == lens@[(j - 1) + 1]);
            }
        }
        let mut i: usize = 0;
        while i < metadata.raw_chunks.len()
            invariant
                i <= metadata.raw_chunks@.len(),
                lens@.len() == 1 + aux_lens@.len(),
                forall|j: int|
                    0 <= j < i ==> (#[trigger] metadata.raw_chunks@[j].file_idx as int)
                        <= aux_lens@.len(),
            decreases metadata.raw_chunks@.len() - i,
        {
            if metadata.raw_chunks[i].file_idx as usize >= lens.len() {
                return Err(
                    DzipError::Generic(
                        String::from_str("invalid split file index in header"),
                    ),
                );
            }
            i = i + 1;
        }
        let processed = correct_chunk_sizes(&metadata.raw_chunks, &lens);
        proof {
            assert forall|j: int| 0 <= j < processed@.len() implies (#[trigger] processed@[j]).id
                == j by {
                assert(processed@[j] == (RawChunk {
                    real_c_len: spec_corrected_len(metadata.raw_chunks@, lens@, j),
                    ..metadata.raw_chunks@[j]
                }));
            }
            assert forall|j: int| 0 <= j < metadata.raw_chunks@.len() implies #[trigger] processed@[
                j
            ] == (RawChunk {
                real_c_len: spec_corrected_len(
                    metadata.raw_chunks@,
                    spec_volume_lens(metadata, aux_lens@),
                    j,
                ),
                ..metadata.raw_chunks@[j]
            }) by {
                assert(processed@[j] == (RawChunk {
                    real_c_len: spec_corrected_len(metadata.raw_chunks@, lens@, j),
                    ..metadata.raw_chunks@[j]
                }));
            }
            assert(processed@ =~= spec_corrected_chunks(
                metadata.raw_chunks@,
                spec_volume_lens(metadata, aux_lens@),
            ));
        }
        Ok(UnpackPlan { metadata, processed_chunks: processed })
    }
}

/// Copy the stored bytes of one chunk out of its volume, clipping to the
/// volume's end.
fn chunk_slice(volumes: &Vec<Vec<u8>>, c: RawChunk) -> (r: Vec<u8>)
    requires
        (c.file_idx as int) < volumes@.len(),
    ensures
        r@ == spec_chunk_slice(volumes.deep_view(), c),
{
    let vol = &volumes[c.file_idx as usize];
    let n = vol.len();
    let off64: u64 = c.offset as u64;
    let end64: u64 = c.offset as u64 + c.real_c_len as u64;
    let lo: usize = if off64 <= n as u64 {
        c.offset as usize
    } else {
        n
    };
    let hi: usize = if end64 <= n as u64 {
        end64 as usize
    } else {
        n
    };
    let sub = vstd::slice::slice_subrange(vol.as_slice(), lo, hi);
    let out = vstd::slice::slice_to_vec(sub);
    proof {
        assert(volumes.deep_view()[c.file_idx as int] == volumes@[c.file_idx as int]@);
        assert(out@ =~= spec_chunk_slice(volumes.deep_view(), c));
    }
    out
}

impl UnpackPlan {
    /// Decode every chunk of file `file_index`, in order, and resolve its
    /// output path.  A path that escapes the output root is rejected; a
    /// chunk of a missing volume, or a broken stream without `keep_raw`,
    /// is fatal; an undecodable codec mark copies the raw bytes under
    /// `keep_raw` and skips the chunk otherwise.
    pub fn extract_file(
        &self,
        volumes: &Vec<Vec<u8>>,
        file_index: usize,
        keep_raw: bool,
        registry: &CodecRegistry,
    ) -> (r: Result<(String, Vec<u8>), DzipError>)
        requires
            self.wf(),
            (file_index as int) < self.metadata.map_entries@.len(),
            registry.spec_decompressors() == spec_default_decompressors(),
        ensures
            ({
                let apath = spec_archive_path(self.metadata, file_index as int);
                let scan = spec_scan(spec_split(apath, |c: char| any_sep(c)), true);
                let dataspec = spec_extract_chunks(
                    self.processed_chunks@,
                    volumes.deep_view(),
                    self.metadata.map_entries@[file_index as int].chunk_ids@,
                    keep_raw,
                );
                match scan {
                    Err(_) => r matches Err(e) && e matches DzipError::InvalidInput(_),
                    Ok(cs) => match dataspec {
                        None => r is Err,
                        Some(bytes) => r matches Ok(p) && p.1@ == bytes && (cs.len() == 0 ==> p.0@
                            == "."@) && (cs.len() > 0 ==> p.0@ == spec_join(cs, '/')),
                    },
                }
            }),
    {
        let ghost m = self.metadata;
        let fname = &self.metadata.user_files[file_index];
        let dir_idx = self.metadata.map_entries[file_index].dir_idx;
        let raw_dir = if dir_idx < self.metadata.directories.len() {
            self.metadata.directories[dir_idx].clone()
        } else {
            String::from_str(".")
        };
        let mut apath: String;
        if raw_dir.as_str().unicode_len() == 0 || raw_dir == String::from_str(".") {
            apath = fname.clone();
        } else {
            apath = raw_dir.clone();
            let last = apath.as_str().get_char(apath.as_str().unicode_len() - 1);
            if !(last == '/' || last == '\\') {
                apath.append("\\");
                proof {
                    reveal_strlit("\\");
                }
            }
            apath.append(fname.as_str());
        }
        proof {
            assert(apath@ == spec_archive_path(m, file_index as int));
        }
        let rel = match resolve_relative_path(apath.as_str()) {
            Ok(p) => p,
            Err(e) => {
                return Err(e);
            },
        };
        proof {
            assert(spec_scan(spec_split(apath@, |c: char| any_sep(c)), true) is Ok);
        }
        let ghost chunks = self.processed_chunks@;
        let ghost vols = volumes.deep_view();
        let ids = &self.metadata.map_entries[file_index].chunk_ids;
        let ghost idseq = ids@;
        let mut out: Vec<u8> = Vec::new();
        let mut i: usize = 0;
        proof {
            assert(idseq.skip(0) =~= idseq);
        }
        while i < ids.len()
            invariant
                i <= idseq.len(),
                idseq == ids@,
                chunks == self.processed_chunks@,
                vols == volumes.deep_view(),
                self.wf(),
                registry.spec_decompressors() == spec_default_decompressors(),
                (file_index as int) < self.metadata.map_entries@.len(),
                idseq == self.metadata.map_entries@[file_index as int].chunk_ids@,
                apath@ == spec_archive_path(self.metadata, file_index as int),
                spec_scan(spec_split(apath@, |c: char| any_sep(c)), true) is Ok,
                match spec_extract_chunks(chunks, vols, idseq.skip(i as int), keep_raw) {
                    Some(rest) => spec_extract_chunks(chunks, vols, idseq, keep_raw) == Some(
                        out@ + rest,
                    ),
                    None => spec_extract_chunks(chunks, vols, idseq, keep_raw) is None,
                },
            decreases idseq.len() - i,
        {
            let cid = ids[i];
            proof {
                assert(idseq.skip(i as int)[0] == idseq[i as int]);
                assert(idseq.skip(i as int).drop_first() =~= idseq.skip(i + 1 as int));
            }
            if (cid as usize) < self.processed_chunks.len() {
                let c = self.processed_chunks[cid as usize];
                if c.file_idx as usize >= volumes.len() {
                    proof {
                        assert(vols.len() == volumes@.len());
                        assert(spec_extract_chunks(chunks, vols, idseq.skip(i as int), keep_raw)
                            is None);
                    }
                    return Err(
                        DzipError::Generic(
                            String::from_str("invalid archive file index for chunk"),
                        ),
                    );
                }
                let data = chunk_slice(volumes, c);
                let supported = c.flags == 0 || c.flags & (CHUNK_ZERO | CHUNK_DZ | CHUNK_LZMA
                    | CHUNK_ZLIB | CHUNK_BZIP | CHUNK_COPYCOMP) != 0;
                let ghost before = out@;
                if !supported {
                    if keep_raw {
                        out.extend_from_slice(data.as_slice());
                        proof {
                            assert(out@ =~= before + data@);
                            match spec_extract_chunks(chunks, vols, idseq.skip(i + 1 as int), keep_raw) {
                                Some(rest) => {
                                    assert(before + (data@ + rest) =~= (before + data@) + rest);
                                },
                                None => {},
                            }
                        }
                    }
                } else {
                    match registry.decompress(&data, c.flags, c.d_len) {
                        Ok(v) => {
                            out.extend_from_slice(v.as_slice());
                            proof {
                                assert(out@ =~= before + v@);
                                match spec_extract_chunks(chunks, vols, idseq.skip(i + 1 as int), keep_raw) {
                                    Some(rest) => {
                                        assert(before + (v@ + rest) =~= (before + v@) + rest);
                                    },
                                    None => {},
                                }
                            }
                        },
                        Err(e) => {
                            if keep_raw {
                                out.extend_from_slice(data.as_slice());
                                proof {
                                    assert(out@ =~= before + data@);
                                    match spec_extract_chunks(chunks, vols, idseq.skip(i + 1 as int), keep_raw) {
                                        Some(rest) => {
                                            assert(before + (data@ + rest) =~= (before + data@)
                                                + rest);
                                        },
                                        None => {},
                                    }
                                }
                            } else {
                                return Err(e);
                            }
                        },
                    }
                }
            }
            i = i + 1;
        }
        proof {
            assert(idseq.skip(idseq.len() as int).len() == 0);
            assert(out@ + Seq::<u8>::empty() =~= out@);
        }
        Ok((rel, out))
    }
}

/// The directory string recorded for file `i` in a regenerated
/// descriptor: the file's directory, or `.` when its id is out of range.
pub open spec fn spec_config_dir(m: ArchiveMetadata, i: int) -> Seq<char> {
    let dir_idx = m.map_entries@[i].dir_idx as int;
    if dir_idx < m.directories@.len() {
        m.directories@[dir_idx]@
    } else {
        "."@
    }
}

/// The path recorded for file `i` in a regenerated descriptor: the raw
/// directory and name joined with a forward slash.
pub open spec fn spec_config_path(m: ArchiveMetadata, i: int) -> Seq<char> {
    let raw_dir = spec_config_dir(m, i);
    let fname = m.user_files@[i]@;
    if raw_dir == "."@ || raw_dir.len() == 0 {
        fname
    } else {
        raw_dir + seq!['/'] + fname
    }
}

/// Whether `(name, data)` is exactly what extracting file `k` yields:
/// the path resolves and `name` is its host form, and the chunk decode
/// succeeds with `data` as its bytes.
pub open spec fn spec_extracted_ok(
    m: ArchiveMetadata,
    chunks: Seq<RawChunk>,
    vols: Seq<Seq<u8>>,
    keep_raw: bool,
    k: int,
    name: Seq<char>,
    data: Seq<u8>,
) -> bool {
    let scan = spec_scan(spec_split_any(spec_archive_path(m, k)), true);
    let dataspec = spec_extract_chunks(chunks, vols, m.map_entries@[k].chunk_ids@, keep_raw);
    scan matches Ok(cs) && dataspec matches Some(bytes) && data == bytes && (cs.len() == 0 ==> name
        == "."@) && (cs.len() > 0 ==> name == spec_join(cs, '/'))
}

impl UnpackPlan {
    /// Extract every file, in file order; the first failure aborts.
    pub fn extract_all(&self, volumes: &Vec<Vec<u8>>, keep_raw: bool, registry: &CodecRegistry) -> (r:
        Result<Vec<(String, Vec<u8>)>, DzipError>)
        requires
            self.wf(),
            registry.spec_decompressors() == spec_default_decompressors(),
        ensures
            match r {
                Ok(v) => v@.len() == self.metadata.map_entries@.len() && (forall|i: int|
                    0 <= i < v@.len() ==> spec_extracted_ok(
                        self.metadata,
                        self.processed_chunks@,
                        volumes.deep_view(),
                        keep_raw,
                        i,
                        (#[trigger] v@[i]).0@,
                        v@[i].1@,
                    )),
                Err(_) => exists|i: int|
                    0 <= i < self.metadata.map_entries@.len() && (#[trigger] spec_scan(
                        spec_split_any(spec_archive_path(self.metadata, i)),
                        true,
                    ) is Err || spec_extract_chunks(
                        self.processed_chunks@,
                        volumes.deep_view(),
                        self.metadata.map_entries@[i].chunk_ids@,
                        keep_raw,
                    ) is None),
            },
    {
        let mut out: Vec<(String, Vec<u8>)> = Vec::new();
        let mut i: usize = 0;
        while i < self.metadata.map_entries.len()
            invariant
                i <= self.metadata.map_entries@.len(),
                self.wf(),
                registry.spec_decompressors() == spec_default_decompressors(),
                out@.len() == i,
                forall|k: int|
                    0 <= k < i ==> spec_extracted_ok(
                        self.metadata,
                        self.processed_chunks@,
                        volumes.deep_view(),
                        keep_raw,
                        k,
                        (#[trigger] out@[k]).0@,
                        out@[k].1@,
                    ),
            decreases self.metadata.map_entries@.len() - i,
        {
            match self.extract_file(volumes, i, keep_raw, registry) {
                Ok(p) => {
                    proof {
                        assert(spec_split_any(spec_archive_path(self.metadata, i as int))
                            == spec_split(
                            spec_archive_path(self.metadata, i as int),
                            |c: char| any_sep(c),
                        ));
                        assert(spec_extracted_ok(
                            self.metadata,
                            self.processed_chunks@,
                            volumes.deep_view(),
                            keep_raw,
                            i as int,
                            p.0@,
                            p.1@,
                        ));
                    }
                    out.push(p);
                },
                Err(e) => {
                    proof {
                        assert(spec_split_any(spec_archive_path(self.metadata, i as int))
                            == spec_split(
                            spec_archive_path(self.metadata, i as int),
                            |c: char| any_sep(c),
                        ));
                    }
                    return Err(e);
                },
            }
            i = i + 1;
        }
        Ok(out)
    }

    /// Regenerate the repack descriptor that describes this archive: its
    /// counters, volume names, range block, file entries with their raw
    /// directory strings, and chunk entries with corrected sizes and flag
    /// names.
    pub fn generate_config_struct(&self) -> (r: Config)
        requires
            self.wf(),
        ensures
            r.archive == (ArchiveMeta {
                version: self.metadata.version,
                total_files: self.metadata.map_entries@.len() as u16,
                total_directories: self.metadata.directories@.len() as u16,
                total_chunks: self.processed_chunks@.len() as u16,
            }),
            r.archive_files.deep_view() == self.metadata.split_file_names.deep_view(),
            r.range_settings == self.metadata.range_settings,
            r.files@.len() == self.metadata.map_entries@.len(),
            forall|i: int|
                0 <= i < r.files@.len() ==> (#[trigger] r.files@[i]).path@ == spec_config_path(
                    self.metadata,
                    i,
                ) && r.files@[i].directory@ == spec_config_dir(self.metadata, i) && r.files@[
                    i
                ].filename@ == self.metadata.user_files@[i]@ && r.files@[i].chunks@
                    == self.metadata.map_entries@[i].chunk_ids@,
            r.chunks@.len() == self.processed_chunks@.len(),
            forall|i: int|
                0 <= i < r.chunks@.len() ==> {
                    let c = self.processed_chunks@[i];
                    (#[trigger] r.chunks@[i]).id == c.id && r.chunks@[i].offset == c.offset
                        && r.chunks@[i].size_compressed == c.real_c_len && r.chunks@[
                        i
                    ].size_decompressed == c.d_len && r.chunks@[i].flags.deep_view()
                        == spec_decode_flags(c.flags) && r.chunks@[i].archive_file_index
                        == c.file_idx
                },
    {
        let mut files: Vec<FileEntry> = Vec::new();
        let mut i: usize = 0;
        while i < self.metadata.map_entries.len()
            invariant
                i <= self.metadata.map_entries@.len(),
                self.wf(),
                files@.len() == i,
                forall|k: int|
                    0 <= k < i ==> (#[trigger] files@[k]).path@ == spec_config_path(
                        self.metadata,
                        k,
                    ) && files@[k].directory@ == spec_config_dir(self.metadata, k) && files@[
                        k
                    ].filename@ == self.metadata.user_files@[k]@ && files@[k].chunks@
                        == self.metadata.map_entries@[k].chunk_ids@,
            decreases self.metadata.map_entries@.len() - i,
        {
            let fname = self.metadata.user_files[i].clone();
            let dir_idx = self.metadata.map_entries[i].dir_idx;
            let raw_dir = if dir_idx < self.metadata.directories.len() {
                self.metadata.directories[dir_idx].clone()
            } else {
                String::from_str(".")
            };
            let mut full: String;
            if raw_dir.as_str().unicode_len() == 0 || raw_dir == String::from_str(".") {
                full = fname.clone();
            } else {
                full = raw_dir.clone();
                full.append("/");
                proof {
                    reveal_strlit("/");
                }
                full.append(fname.as_str());
            }
            files.push(
                FileEntry {
                    path: full,
                    directory: raw_dir,
                    filename: fname,
                    chunks: self.metadata.map_entries[i].chunk_ids.clone(),
                },
            );
            i = i + 1;
        }
        let mut chunk_defs: Vec<ChunkDef> = Vec::new();
        let mut k: usize = 0;
        while k < self.processed_chunks.len()
            invariant
                k <= self.processed_chunks@.len(),
                self.wf(),
                chunk_defs@.len() == k,
                forall|j: int|
                    0 <= j < k ==> {
                        let c = self.processed_chunks@[j];
                        (#[trigger] chunk_defs@[j]).id == c.id && chunk_defs@[j].offset == c.offset
                            && chunk_defs@[j].size_compressed == c.real_c_len && chunk_defs@[
                            j
                        ].size_decompressed == c.d_len && chunk_defs@[j].flags.deep_view()
                            == spec_decode_flags(c.flags) && chunk_defs@[j].archive_file_index
                            == c.file_idx
                    },
            decreases self.processed_chunks@.len() - k,
        {
            let c = self.processed_chunks[k];
            chunk_defs.push(
                ChunkDef {
                    id: c.id,
                    offset: c.offset,
                    size_compressed: c.real_c_len,
                    size_decompressed: c.d_len,
                    flags: decode_flags(c.flags),
                    archive_file_index: c.file_idx,
                },
            );
            k = k + 1;
        }
        let mut archive_files: Vec<String> = Vec::new();
        let mut a: usize = 0;
        while a < self.metadata.split_file_names.len()
            invariant
                a <= self.metadata.split_file_names@.len(),
                archive_files@.len() == a,
                forall|j: int|
                    0 <= j < a ==> #[trigger] archive_files@[j]@
                        == self.metadata.split_file_names@[j]@,
            decreases self.metadata.split_file_names@.len() - a,
        {
            archive_files.push(self.metadata.split_file_names[a].clone());
            a = a + 1;
        }
        proof {
            assert(archive_files.deep_view() =~= self.metadata.split_file_names.deep_view());
        }
        Config {
            archive: ArchiveMeta {
                version: self.metadata.version,
                total_files: self.metadata.map_entries.len() as u16,
                total_directories: self.metadata.directories.len() as u16,
                total_chunks: self.processed_chunks.len() as u16,
            },
            archive_files,
            range_settings: self.metadata.range_settings,
            files,
            chunks: chunk_defs,
        }
    }
}

/// The chunk table with every length corrected against the volume
/// lengths.
pub open spec fn spec_corrected_chunks(cs: Seq<RawChunk>, lens: Seq<u64>) -> Seq<RawChunk> {
    Seq::new(
        cs.len(),
        |i: int| RawChunk { real_c_len: spec_corrected_len(cs, lens, i), ..cs[i] },
    )
}

/// The byte lengths of the given volumes, in order.
pub open spec fn spec_unpack_lens(vols: Seq<Seq<u8>>) -> Seq<u64> {
    Seq::new(vols.len(), |v: int| vols[v].len() as u64)
}

/// The archive-format path of file `i`, read from a parsed header model.
pub open spec fn spec_model_archive_path(mm: MetaModel, i: int) -> Seq<char> {
    let fname = mm.user_files[i];
    let dir_idx = mm.map_entries[i].dir_idx as int;
    let raw_dir = if dir_idx < mm.directories.len() {
        mm.directories[dir_idx]
    } else {
        "."@
    };
    if raw_dir == "."@ || raw_dir.len() == 0 {
        fname
    } else if any_sep(raw_dir.last()) {
        raw_dir + fname
    } else {
        raw_dir + seq!['\\'] + fname
    }
}

/// [`spec_extracted_ok`], phrased over a parsed header model.
pub open spec fn spec_model_extracted_ok(
    mm: MetaModel,
    chunks: Seq<RawChunk>,
    vols: Seq<Seq<u8>>,
    keep_raw: bool,
    k: int,
    name: Seq<char>,
    data: Seq<u8>,
) -> bool {
    let scan = spec_scan(spec_split_any(spec_model_archive_path(mm, k)), true);
    let dataspec = spec_extract_chunks(chunks, vols, mm.map_entries[k].chunk_ids, keep_raw);
    scan matches Ok(cs) && dataspec matches Some(bytes) && data == bytes && (cs.len() == 0 ==> name
        == "."@) && (cs.len() > 0 ==> name == spec_join(cs, '/'))
}

/// A parsed header and its model name the same archive path for each
/// file.
proof fn lemma_model_path(meta: ArchiveMetadata, mm: MetaModel, i: int)
    requires
        matches_model(meta, mm),
        0 <= i < meta.map_entries@.len(),
        i < meta.user_files@.len(),
    ensures
        spec_model_archive_path(mm, i) == spec_archive_path(meta, i),
{
    assert(meta.user_files.deep_view()[i] == meta.user_files@[i]@);
    assert(meta.user_files.deep_view().len() == meta.user_files@.len());
    assert(meta.directories.deep_view().len() == meta.directories@.len());
    let dir_idx = meta.map_entries@[i].dir_idx as int;
    assert(mm.map_entries[i].dir_idx as int == dir_idx);
    if dir_idx < meta.directories@.len() {
        assert(meta.directories.deep_view()[dir_idx] == meta.directories@[dir_idx]@);
    }
}

/// A per-file extraction fact about a parsed header transfers to its
/// model.
proof fn lemma_model_extracted(
    meta: ArchiveMetadata,
    mm: MetaModel,
    chunks: Seq<RawChunk>,
    vols: Seq<Seq<u8>>,
    keep_raw: bool,
    i: int,
    name: Seq<char>,
    data: Seq<u8>,
)
    requires
        matches_model(meta, mm),
        0 <= i < meta.map_entries@.len(),
        i < meta.user_files@.len(),
        spec_extracted_ok(meta, chunks, vols, keep_raw, i, name, data),
    ensures
        spec_model_extracted_ok(mm, chunks, vols, keep_raw, i, name, data),
{
    lemma_model_path(meta, mm, i);
    assert(mm.map_entries[i].chunk_ids == meta.map_entries@[i].chunk_ids@);
}

/// Unpack a whole in-memory archive: parse the header of volume zero,
/// check the volume count, correct the chunk sizes, extract every file,
/// and regenerate the repack descriptor.
#[verifier::rlimit(100)]
#[verifier::spinoff_prover]
pub fn do_unpack(volumes: &Vec<Vec<u8>>, keep_raw: bool) -> (r: Result<
    (Config, Vec<(String, Vec<u8>)>),
    DzipError,
>)
    ensures
        volumes@.len() == 0 ==> r is Err,
        volumes@.len() > 0 && spec_load(volumes@[0]@) is None ==> r is Err,
        (volumes@.len() > 0 && (spec_load(volumes@[0]@) matches Some(p) && {
            let mm = p.0;
            let cc = spec_corrected_chunks(mm.raw_chunks, spec_unpack_lens(volumes.deep_view()));
            &&& volumes@.len() == 1 + mm.split_file_names.len()
            &&& (forall|k: int|
                0 <= k < mm.raw_chunks.len() ==> ((#[trigger] mm.raw_chunks[k]).file_idx as int)
                    < volumes@.len())
            &&& (forall|i: int|
                0 <= i < mm.map_entries.len() ==> spec_scan(
                    spec_split_any(#[trigger] spec_model_archive_path(mm, i)),
                    true,
                ) is Ok && spec_extract_chunks(
                    cc,
                    volumes.deep_view(),
                    mm.map_entries[i].chunk_ids,
                    keep_raw,
                ) is Some)
        })) ==> r is Ok,
        match r {
            Ok(pair) => volumes@.len() > 0 && (spec_load(volumes@[0]@) matches Some(p) && {
                let mm = p.0;
                let cc = spec_corrected_chunks(
                    mm.raw_chunks,
                    spec_unpack_lens(volumes.deep_view()),
                );
                &&& volumes@.len() == 1 + mm.split_file_names.len()
                &&& pair.1@.len() == mm.user_files.len()
                &&& (forall|i: int|
                    0 <= i < pair.1@.len() ==> spec_model_extracted_ok(
                        mm,
                        cc,
                        volumes.deep_view(),
                        keep_raw,
                        i,
                        (#[trigger] pair.1@[i]).0@,
                        pair.1@[i].1@,
                    ))
                &&& pair.0.files@.len() == mm.user_files.len()
                &&& pair.0.archive_files.deep_view() == mm.split_file_names
                &&& pair.0.range_settings == mm.range_settings
            }),
            Err(_) => true,
        },
{
    if volumes.len() == 0 {
        return Err(DzipError::InvalidInput(String::from_str("no volumes supplied")));
    }
    let meta = match ArchiveMetadata::load(&volumes[0]) {
        Ok(m) => m,
        Err(e) => {
            return Err(e);
        },
    };
    let ghost mm = spec_load(volumes@[0]@)->Some_0.0;
    proof {
        assert(matches_model(meta, mm));
        assert(meta.split_file_names@.len() == mm.split_file_names.len()) by {
            assert(meta.split_file_names.deep_view().len() == meta.split_file_names@.len());
        }
    }
    if volumes.len() != 1 + meta.split_file_names.len() {
        return Err(
            DzipError::InvalidInput(
                String::from_str("volume count does not match the header's volume list"),
            ),
        );
    }
    let mut aux_lens: Vec<u64> = Vec::new();
    let mut v: usize = 1;
    while v < volumes.len()
        invariant
            1 <= v <= volumes@.len(),
            aux_lens@.len() == v - 1,
            forall|j: int| 0 <= j < v - 1 ==> #[trigger] aux_lens@[j] == volumes@[j + 1]@.len(),
        decreases volumes@.len() - v,
    {
        aux_lens.push(volumes[v].len() as u64);
        v = v + 1;
    }
    let ghost meta0 = meta;
    let ghost lens = spec_volume_lens(meta0, aux_lens@);
    proof {
        assert(lens =~= spec_unpack_lens(volumes.deep_view())) by {
            assert(volumes.deep_view().len() == volumes@.len());
            assert(forall|k: int|
                0 <= k < volumes@.len() ==> (#[trigger] volumes.deep_view()[k]).len()
                    == volumes@[k]@.len());
            assert(forall|j: int|
                0 <= j < aux_lens@.len() ==> #[trigger] lens[j + 1] == aux_lens@[j]);
        }
        assert(meta0.raw_chunks@ == mm.raw_chunks);
    }
    let ghost cc = spec_corrected_chunks(mm.raw_chunks, spec_unpack_lens(volumes.deep_view()));
    let plan = match UnpackPlan::build(meta, &aux_lens) {
        Ok(p) => p,
        Err(e) => {
            proof {
                let w = choose|i: int|
                    0 <= i < meta0.raw_chunks@.len() && (
                    #[trigger] meta0.raw_chunks@[i].file_idx as int) > aux_lens@.len();
                assert(((mm.raw_chunks[w]).file_idx as int) >= volumes@.len());
            }
            return Err(e);
        },
    };
    proof {
        assert(plan.processed_chunks@ == cc);
        assert(plan.metadata == meta0);
    }
    let registry = create_default_registry();
    let files = match plan.extract_all(volumes, keep_raw, &registry) {
        Ok(f) => f,
        Err(e) => {
            proof {
                let w = choose|i: int|
                    0 <= i < plan.metadata.map_entries@.len() && (#[trigger] spec_scan(
                        spec_split_any(spec_archive_path(plan.metadata, i)),
                        true,
                    ) is Err || spec_extract_chunks(
                        plan.processed_chunks@,
                        volumes.deep_view(),
                        plan.metadata.map_entries@[i].chunk_ids@,
                        keep_raw,
                    ) is None);
                lemma_model_path(meta0, mm, w);
                assert(mm.map_entries[w].chunk_ids == meta0.map_entries@[w].chunk_ids@);
                assert(spec_scan(spec_split_any(spec_model_archive_path(mm, w)), true) is Err
                    || spec_extract_chunks(
                    cc,
                    volumes.deep_view(),
                    mm.map_entries[w].chunk_ids,
                    keep_raw,
                ) is None);
            }
            return Err(e);
        },
    };
    let config = plan.generate_config_struct();
    proof {
        assert forall|i: int| 0 <= i < files@.len() implies spec_model_extracted_ok(
            mm,
            cc,
            volumes.deep_view(),
            keep_raw,
            i,
            (#[trigger] files@[i]).0@,
            files@[i].1@,
        ) by {
            assert(spec_extracted_ok(
                plan.metadata,
                plan.processed_chunks@,
                volumes.deep_view(),
                keep_raw,
                i,
                files@[i].0@,
                files@[i].1@,
            ));
            lemma_model_extracted(
                meta0,
                mm,
                cc,
                volumes.deep_view(),
                keep_raw,
                i,
                files@[i].0@,
                files@[i].1@,
            );
        }
        assert(files@.len() == mm.user_files.len()) by {
            assert(meta0.user_files.deep_view().len() == meta0.user_files@.len());
        }
    }
    Ok((config, files))
}

} // verus!
