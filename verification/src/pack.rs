use vstd::prelude::*;
use vstd::string::StringExecFns;
use vstd::string::StrSliceExecFns;
use crate::codec::{CompressionMethod, compress_data, spec_flag_of, spec_compress_payload,
    spec_zeros, zlib_inflate, bzip_inflate, lzma_inflate};
use crate::error::DzipError;
use crate::format::{no_nul, wf_metadata, spec_header_bytes, spec_has_dz, spec_strings_bytes,
    spec_map_bytes, write_header};
use crate::path::{spec_archive_of, to_archive_format};
use crate::flags::CHUNK_DZ;
use crate::model::{ArchiveMetadata, FileMapEntry, RangeSettings, RawChunk};
use crate::unpack::{spec_extract_chunks, spec_chunk_slice, spec_decode_payload,
    spec_flags_supported, spec_default_decompressors, spec_corrected_chunks, spec_unpack_lens};
use crate::format::{meta_model_of, spec_load, lemma_pack_load_round_trip};
use crate::codec::spec_select_decompressor;

verus! {

/// One file to pack: its stored name, its directory in archive form (the
/// empty string or `.` meaning the root), the volume that receives its
/// payload, the codec to use, and its bytes.
pub struct PackEntry {
    pub filename: String,
    pub directory: String,
    pub archive_file_index: u16,
    pub compression: CompressionMethod,
    pub data: Vec<u8>,
}

/// A packed archive: its header record and the bytes of every volume,
/// the main volume first.
pub struct PackOutput {
    pub metadata: ArchiveMetadata,
    pub volumes: Vec<Vec<u8>>,
}

/// What extraction must give back for a packed file: the zero codec
/// stores no bytes and restores a run of zeros; every other codec
/// restores the source bytes.
pub open spec fn spec_packed_file_content(method: CompressionMethod, data: Seq<u8>) -> Seq<u8> {
    if method is Zero {
        spec_zeros(data.len())
    } else {
        data
    }
}

/// A stored payload together with the decoder facts packing relies on.
pub open spec fn spec_blob_ok(method: CompressionMethod, data: Seq<u8>, blob: Seq<u8>) -> bool {
    &&& blob == spec_compress_payload(method, data)
    &&& (method is Zlib ==> zlib_inflate(blob) == Some(data))
    &&& (method is Bzip ==> bzip_inflate(blob) == Some(data))
    &&& (method is Lzma ==> lzma_inflate(blob) == Some(data))
}

/// The payload bytes volume `vol` holds once the first `upto` entries are
/// written, in entry order.
pub open spec fn spec_vol_payload(entries: Seq<PackEntry>, vol: u16, upto: int) -> Seq<u8>
    decreases upto,
{
    if upto <= 0 {
        Seq::empty()
    } else {
        let prev = spec_vol_payload(entries, vol, upto - 1);
        if entries[upto - 1].archive_file_index == vol {
            prev + spec_compress_payload(
                entries[upto - 1].compression,
                entries[upto - 1].data@,
            )
        } else {
            prev
        }
    }
}

/// A directory string that collapses to the root: empty or `.`.
pub open spec fn spec_root_dir(d: Seq<char>) -> bool {
    d.len() == 0 || d == "."@
}

/// The checkable conditions packing puts on its inputs: the counts fit
/// the wire format, no stored string holds a NUL, every entry routes to
/// a volume that exists, and every file fits the 32-bit length field.
pub open spec fn spec_pack_input_ok(entries: Seq<PackEntry>, split_names: Seq<Seq<char>>) -> bool {
    &&& entries.len() <= 0xFFFF
    &&& split_names.len() < 0xFFFF
    &&& (forall|i: int|
        0 <= i < entries.len() ==> no_nul((#[trigger] entries[i]).filename@) && no_nul(
            entries[i].directory@,
        ))
    &&& (forall|i: int| 0 <= i < split_names.len() ==> no_nul(#[trigger] split_names[i]))
    &&& (forall|i: int|
        0 <= i < entries.len() ==> (#[trigger] entries[i]).archive_file_index as int
            <= split_names.len())
    &&& (forall|i: int| 0 <= i < entries.len() ==> (#[trigger] entries[i]).data@.len() <= 0xFFFF_FFFF)
}

/// Whether `s` holds no NUL character.
fn check_no_nul(s: &str) -> (r: bool)
    ensures
        r == no_nul(s@),
{
    let n = s.unicode_len();
    let mut i: usize = 0;
    while i < n
        invariant
            i <= n,
            n == s@.len(),
            forall|j: int| 0 <= j < i ==> s@[j] != '\0',
        decreases n - i,
    {
        if s.get_char(i) == '\0' {
            return false;
        }
        i = i + 1;
    }
    true
}

/// The directory table the writer builds: each entry's directory in
/// archive form, root directories skipped, duplicates dropped, first
/// seen first.
pub open spec fn spec_dirs_table(entries: Seq<PackEntry>, upto: int) -> Seq<Seq<char>>
    decreases upto,
{
    if upto <= 0 {
        Seq::empty()
    } else {
        let prev = spec_dirs_table(entries, upto - 1);
        let d = spec_archive_of(entries[upto - 1].directory@);
        if spec_root_dir(d) || prev.contains(d) {
            prev
        } else {
            prev.push(d)
        }
    }
}

/// Whether any entry chooses the archive-native range codec, which makes
/// the writer reserve the range-settings block.
pub open spec fn spec_any_dz(entries: Seq<PackEntry>, upto: int) -> bool {
    exists|i: int| 0 <= i < upto && (#[trigger] entries[i]).compression is Dz
}

/// The exact byte length of the header the writer reserves on volume
/// zero: settings, one string per file name and per stored directory,
/// six bytes per single-chunk map entry, chunk settings, sixteen bytes
/// per chunk, the volume list, and the range block when some entry uses
/// the range codec.
pub open spec fn spec_pack_header_len(entries: Seq<PackEntry>, split_names: Seq<Seq<char>>) -> int {
    9 + spec_strings_bytes(Seq::new(entries.len(), |i: int| entries[i].filename@)).len() as int
        + spec_strings_bytes(spec_dirs_table(entries, entries.len() as int)).len() as int + 6
        * entries.len() + 4 + 16 * entries.len() + spec_strings_bytes(split_names).len() as int + (
    if spec_any_dz(entries, entries.len() as int) {
        10int
    } else {
        0int
    })
}

/// Rewriting separators to backslashes changes neither emptiness nor
/// being the current-directory string.
proof fn lemma_archive_of_root(s: Seq<char>)
    ensures
        spec_root_dir(spec_archive_of(s)) <==> spec_root_dir(s),
{
    reveal_strlit(".");
    assert(("."@).len() == 1);
    if s == "."@ {
        assert(spec_archive_of(s) =~= s);
    }
    if spec_archive_of(s) == "."@ {
        assert(spec_archive_of(s)[0] == '.');
        assert(s[0] == '.');
        assert(s =~= "."@);
    }
}

/// Rewriting separators to backslashes introduces no NUL character.
proof fn lemma_archive_of_no_nul(s: Seq<char>)
    requires
        no_nul(s),
    ensures
        no_nul(spec_archive_of(s)),
{
    assert forall|j: int| 0 <= j < spec_archive_of(s).len() implies #[trigger] spec_archive_of(
        s,
    )[j] != '\0' by {
        assert(s[j] != '\0');
    }
}

/// A map whose entries list one chunk each serializes to six bytes per
/// entry.
proof fn lemma_single_chunk_map_len(es: Seq<FileMapEntry>)
    requires
        forall|i: int| 0 <= i < es.len() ==> (#[trigger] es[i]).chunk_ids@.len() == 1,
    ensures
        spec_map_bytes(es).len() == 6 * es.len(),
    decreases es.len(),
{
    if es.len() != 0 {
        let ids = es[0].chunk_ids@;
        assert(ids.drop_first() =~= Seq::<u16>::empty());
        assert(crate::format::spec_ids_bytes(Seq::<u16>::empty()).len() == 2);
        assert(crate::format::spec_ids_bytes(ids).len() == 4);
        assert(forall|i: int|
            0 <= i < es.drop_first().len() ==> #[trigger] es.drop_first()[i] == es[i + 1]);
        lemma_single_chunk_map_len(es.drop_first());
    }
}

/// Only the range codec sets the DZ-range bit in a chosen method's flags.
proof fn lemma_flag_dz(method: CompressionMethod)
    ensures
        spec_flag_of(method) & CHUNK_DZ != 0 <==> method is Dz,
{
    assert((0u16 & 0x4 == 0) && (0x80u16 & 0x4 == 0) && (0x4u16 & 0x4 != 0) && (0x8u16 & 0x4 == 0)
        && (0x10u16 & 0x4 == 0) && (0x200u16 & 0x4 == 0) && (0x20u16 & 0x4 == 0) && (0x40u16 & 0x4
        == 0) && (0x1u16 & 0x4 == 0) && (0x100u16 & 0x4 == 0) && (0x400u16 & 0x4 == 0))
        by (bit_vector);
}

/// The header of a metadata record built the writer's way has exactly
/// the reserved length.
#[verifier::rlimit(100)]
#[verifier::spinoff_prover]
proof fn lemma_pack_header_len(
    entries: Seq<PackEntry>,
    splits: Seq<Seq<char>>,
    m: ArchiveMetadata,
    n: int,
    flags_v: Seq<u16>,
    blobs: Seq<Seq<u8>>,
)
    requires
        n == entries.len(),
        m.user_files.deep_view() == Seq::new(entries.len(), |i: int| entries[i].filename@),
        m.directories.deep_view().len() >= 1,
        m.directories.deep_view().drop_first() == spec_dirs_table(entries, n),
        m.map_entries@.len() == n,
        forall|k: int| 0 <= k < n ==> (#[trigger] m.map_entries@[k]).chunk_ids@.len() == 1,
        m.raw_chunks@.len() == n,
        forall|k: int| 0 <= k < n ==> (#[trigger] m.raw_chunks@[k]).flags == flags_v[k],
        forall|k: int| 0 <= k < n ==> #[trigger] spec_blob_at(entries, flags_v, blobs, k),
        m.split_file_names.deep_view() == splits,
        m.range_settings is Some <==> spec_has_dz(m.raw_chunks@),
    ensures
        spec_header_bytes(m).len() == spec_pack_header_len(entries, splits),
{
    lemma_single_chunk_map_len(m.map_entries@);
    lemma_chunks_bytes_len(m.raw_chunks@);
    assert(spec_has_dz(m.raw_chunks@) <==> spec_any_dz(entries, n)) by {
        if spec_has_dz(m.raw_chunks@) {
            let w = choose|k: int|
                0 <= k < m.raw_chunks@.len() && #[trigger] m.raw_chunks@[k].flags & CHUNK_DZ != 0;
            assert(spec_blob_at(entries, flags_v, blobs, w));
            lemma_flag_dz(entries[w].compression);
        }
        if spec_any_dz(entries, n) {
            let w = choose|i: int| 0 <= i < n && (#[trigger] entries[i]).compression is Dz;
            lemma_flag_dz(entries[w].compression);
            assert(spec_blob_at(entries, flags_v, blobs, w));
            assert(m.raw_chunks@[w].flags & CHUNK_DZ != 0);
        }
    }
}

/// The first entry at or after `from` routed to volume `v`, or the entry
/// count when none remains.
pub open spec fn spec_next_in_vol(entries: Seq<PackEntry>, v: u16, from: int) -> int
    decreases entries.len() - from,
{
    if from < 0 || from >= entries.len() {
        entries.len() as int
    } else if entries[from].archive_file_index == v {
        from
    } else {
        spec_next_in_vol(entries, v, from + 1)
    }
}

/// The volume finder stays in bounds and is exact.
proof fn lemma_next_in_vol(entries: Seq<PackEntry>, v: u16, from: int)
    requires
        0 <= from <= entries.len(),
    ensures
        from <= spec_next_in_vol(entries, v, from) <= entries.len(),
        forall|t: int|
            from <= t < spec_next_in_vol(entries, v, from) ==> (
            #[trigger] entries[t]).archive_file_index != v,
        spec_next_in_vol(entries, v, from) < entries.len() ==> entries[spec_next_in_vol(
            entries,
            v,
            from,
        )].archive_file_index == v,
    decreases entries.len() - from,
{
    if from < entries.len() && entries[from].archive_file_index != v {
        lemma_next_in_vol(entries, v, from + 1);
    }
}

/// A volume's payload does not change over a span of entries routed
/// elsewhere.
proof fn lemma_vol_payload_stable(entries: Seq<PackEntry>, v: u16, a: int, b: int)
    requires
        0 <= a <= b <= entries.len(),
        forall|t: int| a <= t < b ==> (#[trigger] entries[t]).archive_file_index != v,
    ensures
        spec_vol_payload(entries, v, b) == spec_vol_payload(entries, v, a),
    decreases b - a,
{
    if b > a {
        lemma_vol_payload_stable(entries, v, a, b - 1);
    }
}

/// A volume's payload only grows with more entries.
proof fn lemma_vol_payload_mono(entries: Seq<PackEntry>, v: u16, a: int, b: int)
    requires
        0 <= a <= b <= entries.len(),
    ensures
        spec_vol_payload(entries, v, a).len() <= spec_vol_payload(entries, v, b).len(),
{
    lemma_vol_payload_split(entries, v, a, b);
}

/// Size correction leaves a writer-laid-out chunk table unchanged: with
/// every chunk's bytes ending exactly where the next chunk of its volume
/// begins, and each volume ending with its last chunk, every corrected
/// length equals the recorded one.
#[verifier::rlimit(100)]
#[verifier::spinoff_prover]
pub proof fn lemma_correction_preserves_layout(
    entries: Seq<PackEntry>,
    hl: int,
    cs: Seq<RawChunk>,
    lens: Seq<u64>,
)
    requires
        cs.len() == entries.len(),
        hl >= 0,
        forall|k: int|
            0 <= k < cs.len() ==> (#[trigger] cs[k]).file_idx == entries[k].archive_file_index,
        forall|k: int|
            0 <= k < cs.len() ==> (#[trigger] cs[k]).head_c_len == spec_compress_payload(
                entries[k].compression,
                entries[k].data@,
            ).len(),
        forall|k: int|
            0 <= k < cs.len() ==> (#[trigger] cs[k]).offset as int == spec_vol_base(
                hl,
                cs[k].file_idx as int,
            ) + spec_vol_payload(entries, cs[k].file_idx, k).len(),
        forall|k: int| 0 <= k < cs.len() ==> ((#[trigger] cs[k]).file_idx as int) < lens.len(),
        forall|v: int|
            0 <= v < lens.len() ==> (#[trigger] lens[v]) as int == spec_vol_base(hl, v)
                + spec_vol_payload(entries, v as u16, entries.len() as int).len(),
        forall|v: int| 0 <= v < lens.len() ==> (#[trigger] lens[v]) <= 0xFFFF_FFFF,
    ensures
        forall|k: int|
            0 <= k < cs.len() ==> #[trigger] crate::correct::spec_corrected_len(cs, lens, k) == cs[
                k
            ].head_c_len,
{
    let n = cs.len() as int;
    assert forall|k: int| 0 <= k < n implies #[trigger] crate::correct::spec_corrected_len(
        cs,
        lens,
        k,
    ) == cs[k].head_c_len by {
        if !crate::correct::spec_offset_tie(cs, k) {
            let vk = cs[k].file_idx;
            let off_k = cs[k].offset as int;
            let head_k = cs[k].head_c_len as int;
            assert(spec_vol_payload(entries, vk, k + 1) == spec_vol_payload(entries, vk, k)
                + spec_compress_payload(entries[k].compression, entries[k].data@));
            crate::correct::lemma_next_offset_scan_min(cs, k, 0, None);
            assert forall|j: int| 0 <= j < n && crate::correct::spec_lex_after(cs, k, j) implies
                cs[j].offset as int >= off_k + head_k by {
                assert(cs[j].file_idx == vk);
                if j < k {
                    lemma_vol_payload_mono(entries, vk, j, k);
                    assert(cs[j].offset as int <= off_k);
                    assert(false);
                } else if j == k {
                    assert(false);
                } else {
                    lemma_vol_payload_mono(entries, vk, k + 1, j);
                }
            }
            let j0 = spec_next_in_vol(entries, vk, k + 1);
            lemma_next_in_vol(entries, vk, k + 1);
            if j0 < n {
                lemma_vol_payload_stable(entries, vk, k + 1, j0);
                assert(cs[j0 as int].offset as int == off_k + head_k);
                if head_k == 0 {
                    assert(crate::correct::spec_offset_tie(cs, k)) by {
                        assert(cs[j0 as int].file_idx == cs[k].file_idx && cs[j0 as int].offset
                            == cs[k].offset && j0 != k);
                    }
                    assert(false);
                }
                assert(crate::correct::spec_lex_after(cs, k, j0));
                match crate::correct::spec_next_offset_scan(cs, k, 0, None) {
                    Some(o) => {
                        assert(o as int <= off_k + head_k);
                        let w = choose|w: int|
                            0 <= w < n && crate::correct::spec_lex_after(cs, k, w) && (
                            #[trigger] cs[w]).offset == o;
                        assert(o as int >= off_k + head_k);
                        assert(crate::correct::spec_next_offset(cs, lens, k) == o);
                    },
                    None => {
                        assert(false);
                    },
                }
            } else {
                lemma_vol_payload_stable(entries, vk, k + 1, n);
                match crate::correct::spec_next_offset_scan(cs, k, 0, None) {
                    Some(o) => {
                        let w = choose|w: int|
                            0 <= w < n && crate::correct::spec_lex_after(cs, k, w) && (
                            #[trigger] cs[w]).offset == o;
                        assert(w > k ==> w >= j0);
                        assert(w < k ==> cs[w].offset as int <= off_k) by {
                            if w < k {
                                lemma_vol_payload_mono(entries, vk, w, k);
                            }
                        }
                        assert(false);
                    },
                    None => {
                        assert((lens[vk as int]) as int == off_k + head_k);
                        assert(crate::correct::spec_next_offset(cs, lens, k) as int == off_k
                            + head_k);
                    },
                }
            }
        }
    }
}

/// Find a directory in the table; ids are one-based.
fn find_dir(dirs: &Vec<String>, d: &String) -> (r: Option<u16>)
    requires
        dirs@.len() < 0xFFFF,
    ensures
        match r {
            Some(id) => 1 <= id && id as int <= dirs@.len() && dirs@[id as int - 1]@ == d@,
            None => forall|k: int| 0 <= k < dirs@.len() ==> #[trigger] dirs@[k]@ != d@,
        },
{
    let mut j: usize = 0;
    while j < dirs.len()
        invariant
            j <= dirs@.len(),
            dirs@.len() < 0xFFFF,
            forall|k: int| 0 <= k < j ==> #[trigger] dirs@[k]@ != d@,
        decreases dirs@.len() - j,
    {
        if dirs[j] == *d {
            return Some((j + 1) as u16);
        }
        j = j + 1;
    }
    None
}

/// The payload bytes volume `vol` receives from entries `from..to`, in
/// entry order.
pub open spec fn spec_vol_payload_range(entries: Seq<PackEntry>, vol: u16, from: int, to: int) -> Seq<
    u8,
>
    decreases to - from,
{
    if to <= from {
        Seq::empty()
    } else {
        let last = if entries[to - 1].archive_file_index == vol {
            spec_compress_payload(entries[to - 1].compression, entries[to - 1].data@)
        } else {
            Seq::empty()
        };
        spec_vol_payload_range(entries, vol, from, to - 1) + last
    }
}

/// A volume's payload splits at any point.
pub proof fn lemma_vol_payload_split(entries: Seq<PackEntry>, vol: u16, j: int, n: int)
    requires
        0 <= j <= n,
    ensures
        spec_vol_payload(entries, vol, n) == spec_vol_payload(entries, vol, j)
            + spec_vol_payload_range(entries, vol, j, n),
    decreases n - j,
{
    if n == j {
        assert(spec_vol_payload(entries, vol, j) + Seq::<u8>::empty() =~= spec_vol_payload(
            entries,
            vol,
            j,
        ));
    } else {
        lemma_vol_payload_split(entries, vol, j, n - 1);
        if entries[n - 1].archive_file_index == vol {
            assert(spec_vol_payload(entries, vol, j) + (spec_vol_payload_range(entries, vol, j, n
                - 1) + spec_compress_payload(entries[n - 1].compression, entries[n - 1].data@))
                =~= (spec_vol_payload(entries, vol, j) + spec_vol_payload_range(
                entries,
                vol,
                j,
                n - 1,
            )) + spec_compress_payload(entries[n - 1].compression, entries[n - 1].data@));
        } else {
            assert(spec_vol_payload_range(entries, vol, j, n) =~= spec_vol_payload_range(
                entries,
                vol,
                j,
                n - 1,
            ));
        }
    }
}

/// The chunk table serializes to sixteen bytes per record.
pub proof fn lemma_chunks_bytes_len(cs: Seq<RawChunk>)
    ensures
        crate::format::spec_chunks_bytes(cs).len() == 16 * cs.len(),
    decreases cs.len(),
{
    if cs.len() != 0 {
        lemma_chunks_bytes_len(cs.drop_first());
    }
}

/// The compression facts packing records for entry `k`.
pub open spec fn spec_blob_at(
    entries: Seq<PackEntry>,
    flags_v: Seq<u16>,
    blobs: Seq<Seq<u8>>,
    k: int,
) -> bool {
    &&& flags_v[k] == spec_flag_of(entries[k].compression)
    &&& spec_blob_ok(entries[k].compression, entries[k].data@, blobs[k])
}

/// The reserved byte position of volume `v`'s first payload byte: the
/// header length on volume zero, zero elsewhere.
pub open spec fn spec_vol_base(hl: int, v: int) -> int {
    if v == 0 {
        hl
    } else {
        0
    }
}

/// The chunk record packing emits for entry `k`.
pub open spec fn spec_chunk_at(entries: Seq<PackEntry>, hl: int, c: RawChunk, k: int) -> bool {
    let vk = entries[k].archive_file_index;
    &&& c.id == k
    &&& c.file_idx == vk
    &&& c.flags == spec_flag_of(entries[k].compression)
    &&& c.d_len == entries[k].data@.len()
    &&& c.head_c_len == spec_compress_payload(entries[k].compression, entries[k].data@).len()
    &&& c.real_c_len == c.head_c_len
    &&& c.offset as int == spec_vol_base(hl, vk as int) + spec_vol_payload(entries, vk, k).len()
}

/// A volume's payload over a span splits at any midpoint.
pub proof fn lemma_vol_payload_range_split(
    entries: Seq<PackEntry>,
    vol: u16,
    a: int,
    b: int,
    c: int,
)
    requires
        a <= b <= c,
    ensures
        spec_vol_payload_range(entries, vol, a, c) == spec_vol_payload_range(entries, vol, a, b)
            + spec_vol_payload_range(entries, vol, b, c),
    decreases c - b,
{
    if c == b {
        assert(spec_vol_payload_range(entries, vol, a, b) + Seq::<u8>::empty()
            =~= spec_vol_payload_range(entries, vol, a, b));
    } else {
        lemma_vol_payload_range_split(entries, vol, a, b, c - 1);
        let last = if entries[c - 1].archive_file_index == vol {
            spec_compress_payload(entries[c - 1].compression, entries[c - 1].data@)
        } else {
            Seq::<u8>::empty()
        };
        assert(spec_vol_payload_range(entries, vol, a, b) + (spec_vol_payload_range(
            entries,
            vol,
            b,
            c - 1,
        ) + last) =~= (spec_vol_payload_range(entries, vol, a, b) + spec_vol_payload_range(
            entries,
            vol,
            b,
            c - 1,
        )) + last);
    }
}

/// Evaluate the fixed decoder table on a flag mask, in priority order.
pub proof fn lemma_select_default(flags: u16)
    ensures
        spec_select_decompressor(spec_default_decompressors(), flags) == (if flags
            & crate::flags::CHUNK_ZERO != 0 {
            Some(crate::codec::DecompressorKind::Zero)
        } else if flags & crate::flags::CHUNK_DZ != 0 {
            Some(crate::codec::DecompressorKind::PassThrough)
        } else if flags & crate::flags::CHUNK_LZMA != 0 {
            Some(crate::codec::DecompressorKind::Lzma)
        } else if flags & crate::flags::CHUNK_ZLIB != 0 {
            Some(crate::codec::DecompressorKind::Zlib)
        } else if flags & crate::flags::CHUNK_BZIP != 0 {
            Some(crate::codec::DecompressorKind::Bzip)
        } else {
            None
        }),
{
    let t0 = spec_default_decompressors();
    let t1 = t0.drop_first();
    let t2 = t1.drop_first();
    let t3 = t2.drop_first();
    let t4 = t3.drop_first();
    let t5 = t4.drop_first();
    assert(t0[0] == (crate::flags::CHUNK_ZERO, crate::codec::DecompressorKind::Zero));
    assert(t1[0] == (crate::flags::CHUNK_DZ, crate::codec::DecompressorKind::PassThrough));
    assert(t2[0] == (crate::flags::CHUNK_LZMA, crate::codec::DecompressorKind::Lzma));
    assert(t3[0] == (crate::flags::CHUNK_ZLIB, crate::codec::DecompressorKind::Zlib));
    assert(t4[0] == (crate::flags::CHUNK_BZIP, crate::codec::DecompressorKind::Bzip));
    assert(t5.len() == 0);
    assert(spec_select_decompressor(t5, flags) is None);
    if flags & crate::flags::CHUNK_ZERO == 0 {
        assert(spec_select_decompressor(t0, flags) == spec_select_decompressor(t1, flags));
        if flags & crate::flags::CHUNK_DZ == 0 {
            assert(spec_select_decompressor(t1, flags) == spec_select_decompressor(t2, flags));
            if flags & crate::flags::CHUNK_LZMA == 0 {
                assert(spec_select_decompressor(t2, flags) == spec_select_decompressor(t3, flags));
                if flags & crate::flags::CHUNK_ZLIB == 0 {
                    assert(spec_select_decompressor(t3, flags) == spec_select_decompressor(
                        t4,
                        flags,
                    ));
                    if flags & crate::flags::CHUNK_BZIP == 0 {
                        assert(spec_select_decompressor(t4, flags) == spec_select_decompressor(
                            t5,
                            flags,
                        ));
                    }
                }
            }
        }
    }
}

/// How the fixed decoder table treats each writer-chosen codec: the four
/// undecodable marks are unsupported; every other mask decodes the stored
/// payload back to what the file must contain.
pub proof fn lemma_method_decode(
    method: CompressionMethod,
    data: Seq<u8>,
    blob: Seq<u8>,
    d_len: u32,
)
    requires
        blob == spec_compress_payload(method, data),
        method is Zlib ==> crate::codec::zlib_inflate(blob) == Some(data),
        method is Bzip ==> crate::codec::bzip_inflate(blob) == Some(data),
        method is Lzma ==> crate::codec::lzma_inflate(blob) == Some(data),
        d_len == data.len(),
    ensures
        spec_flags_supported(spec_flag_of(method)) <==> !(method is Mp3 || method is Jpeg
            || method is Combuf || method is RandomAccess),
        spec_flags_supported(spec_flag_of(method)) ==> spec_decode_payload(
            blob,
            spec_flag_of(method),
            d_len,
        ) == Some(spec_packed_file_content(method, data)),
{
    assert((0u16 & 0x39C == 0) && (0u16 & 0x80 == 0) && (0u16 & 0x4 == 0) && (0u16 & 0x200 == 0)
        && (0u16 & 0x8 == 0) && (0u16 & 0x10 == 0) && (0x80u16 & 0x39C != 0) && (0x80u16 & 0x80
        != 0) && (0x4u16 & 0x39C != 0) && (0x4u16 & 0x80 == 0) && (0x4u16 & 0x4 != 0) && (0x200u16
        & 0x39C != 0) && (0x200u16 & 0x80 == 0) && (0x200u16 & 0x4 == 0) && (0x200u16 & 0x200 != 0)
        && (0x8u16 & 0x39C != 0) && (0x8u16 & 0x80 == 0) && (0x8u16 & 0x4 == 0) && (0x8u16 & 0x200
        == 0) && (0x8u16 & 0x8 != 0) && (0x10u16 & 0x39C != 0) && (0x10u16 & 0x80 == 0) && (0x10u16
        & 0x4 == 0) && (0x10u16 & 0x200 == 0) && (0x10u16 & 0x8 == 0) && (0x10u16 & 0x10 != 0) && (
    0x100u16 & 0x39C != 0) && (0x100u16 & 0x80 == 0) && (0x100u16 & 0x4 == 0) && (0x100u16 & 0x200
        == 0) && (0x100u16 & 0x8 == 0) && (0x100u16 & 0x10 == 0) && (0x20u16 & 0x39C == 0) && (
    0x40u16 & 0x39C == 0) && (0x1u16 & 0x39C == 0) && (0x400u16 & 0x39C == 0)) by (bit_vector);
    assert(crate::flags::CHUNK_ZERO | crate::flags::CHUNK_DZ | crate::flags::CHUNK_LZMA
        | crate::flags::CHUNK_ZLIB | crate::flags::CHUNK_BZIP | crate::flags::CHUNK_COPYCOMP
        == 0x39C) by (bit_vector);
    lemma_select_default(spec_flag_of(method));
    match method {
        CompressionMethod::Zero => {
            assert(spec_zeros(d_len as nat) =~= spec_packed_file_content(method, data));
        },
        _ => {},
    }
}

/// Extracting the single chunk of packed file `i` restores exactly what
/// the format stores for it: the raw payload under `keep_raw` for the
/// undecodable marks, and the decoded source bytes otherwise.
#[verifier::rlimit(100)]
#[verifier::spinoff_prover]
proof fn lemma_pack_extract_one(
    entries: Seq<PackEntry>,
    hl: int,
    m: ArchiveMetadata,
    vols: Seq<Seq<u8>>,
    flags_v: Seq<u16>,
    blobs: Seq<Seq<u8>>,
    pays: Seq<Seq<u8>>,
    nvol: int,
    n: int,
    i: int,
)
    requires
        n == entries.len(),
        0 <= i < n,
        m.raw_chunks@.len() == n,
        spec_chunk_at(entries, hl, m.raw_chunks@[i], i),
        spec_blob_at(entries, flags_v, blobs, i),
        m.map_entries@.len() == n,
        m.map_entries@[i].chunk_ids@ == seq![i as u16],
        vols.len() == nvol,
        (entries[i].archive_file_index as int) < nvol,
        vols.index(0) == spec_header_bytes(m) + pays.index(0),
        forall|v: int| 1 <= v < nvol ==> #[trigger] vols[v] == pays[v],
        forall|v: int|
            0 <= v < nvol ==> #[trigger] pays[v] == spec_vol_payload(entries, v as u16, n),
        spec_header_bytes(m).len() == hl,
        entries[i].data@.len() <= 0xFFFF_FFFF,
    ensures
        spec_extract_chunks(m.raw_chunks@, vols, m.map_entries@[i].chunk_ids@, true) == Some(
            spec_packed_file_content(entries[i].compression, entries[i].data@),
        ),
        spec_flags_supported(spec_flag_of(entries[i].compression)) ==> spec_extract_chunks(
            m.raw_chunks@,
            vols,
            m.map_entries@[i].chunk_ids@,
            false,
        ) == Some(spec_packed_file_content(entries[i].compression, entries[i].data@)),
{
    let e = entries[i];
    let method = e.compression;
    let c = m.raw_chunks@[i];
    let blob = spec_compress_payload(method, e.data@);
    let vk = e.archive_file_index;
    let vki = vk as int;
    assert(pays[vki] == spec_vol_payload(entries, vk, n));
    let volbytes = vols[vki];
    if vki != 0 {
        assert(volbytes == pays[vki]);
    }
    assert(volbytes == (if vki == 0 {
        spec_header_bytes(m)
    } else {
        Seq::<u8>::empty()
    }) + spec_vol_payload(entries, vk, n)) by {
        if vki != 0 {
            assert(Seq::<u8>::empty() + spec_vol_payload(entries, vk, n) =~= spec_vol_payload(
                entries,
                vk,
                n,
            ));
        }
    }
    assert(volbytes.len() == spec_vol_base(hl, vki) + spec_vol_payload(entries, vk, n).len());
    lemma_vol_payload_split(entries, vk, i, n);
    lemma_vol_payload_range_split(entries, vk, i, i + 1, n);
    let tail_r = spec_vol_payload_range(entries, vk, i + 1, n);
    assert(spec_vol_payload_range(entries, vk, i, i) == Seq::<u8>::empty());
    assert(spec_vol_payload_range(entries, vk, i, i + 1) =~= blob) by {
        assert(Seq::<u8>::empty() + blob =~= blob);
    }
    assert(spec_vol_payload(entries, vk, n) == spec_vol_payload(entries, vk, i) + (blob
        + tail_r)) by {
        assert(spec_vol_payload_range(entries, vk, i, n) == blob + tail_r);
    }
    let off = spec_vol_base(hl, vki) + spec_vol_payload(entries, vk, i).len();
    assert(c.offset as int == off);
    assert(c.real_c_len as int == blob.len());
    assert(off + blob.len() <= volbytes.len());
    assert(spec_chunk_slice(vols, c) =~= blob);
    lemma_method_decode(method, e.data@, blob, c.d_len);
    let ids = m.map_entries@[i].chunk_ids@;
    assert(ids[0] == i as u16);
    assert(ids.drop_first() =~= Seq::<u16>::empty());
    assert(spec_extract_chunks(m.raw_chunks@, vols, ids.drop_first(), true) == Some(
        Seq::<u8>::empty(),
    ));
    assert(spec_extract_chunks(m.raw_chunks@, vols, ids.drop_first(), false) == Some(
        Seq::<u8>::empty(),
    ));
    assert((i as u16) as int == i);
    let content = spec_packed_file_content(method, e.data@);
    if spec_flags_supported(c.flags) {
        assert(spec_decode_payload(blob, c.flags, c.d_len) == Some(content));
        assert(content + Seq::<u8>::empty() =~= content);
    } else {
        assert(!(method is Zero || method is Zlib || method is Bzip || method is Lzma));
        assert(blob == e.data@);
        assert(blob + Seq::<u8>::empty() =~= blob);
    }
}

/// Every packed file extracts to exactly what the format stores for it.
#[verifier::rlimit(100)]
#[verifier::spinoff_prover]
proof fn lemma_pack_extract_all(
    entries: Seq<PackEntry>,
    hl: int,
    m: ArchiveMetadata,
    vols: Seq<Seq<u8>>,
    flags_v: Seq<u16>,
    blobs: Seq<Seq<u8>>,
    pays: Seq<Seq<u8>>,
    nvol: int,
    n: int,
)
    requires
        n == entries.len(),
        m.raw_chunks@.len() == n,
        m.map_entries@.len() == n,
        forall|i: int| 0 <= i < n ==> spec_chunk_at(entries, hl, #[trigger] m.raw_chunks@[i], i),
        forall|i: int| 0 <= i < n ==> #[trigger] spec_blob_at(entries, flags_v, blobs, i),
        forall|i: int|
            0 <= i < n ==> (#[trigger] m.map_entries@[i]).chunk_ids@ == seq![i as u16],
        forall|i: int| 0 <= i < n ==> ((#[trigger] entries[i]).archive_file_index as int) < nvol,
        forall|i: int| 0 <= i < n ==> (#[trigger] entries[i]).data@.len() <= 0xFFFF_FFFF,
        vols.len() == nvol,
        vols.index(0) == spec_header_bytes(m) + pays.index(0),
        forall|v: int| 1 <= v < nvol ==> #[trigger] vols[v] == pays[v],
        forall|v: int|
            0 <= v < nvol ==> #[trigger] pays[v] == spec_vol_payload(entries, v as u16, n),
        spec_header_bytes(m).len() == hl,
    ensures
        forall|i: int|
            0 <= i < n ==> #[trigger] spec_extract_chunks(
                m.raw_chunks@,
                vols,
                m.map_entries@[i].chunk_ids@,
                true,
            ) == Some(spec_packed_file_content(entries[i].compression, entries[i].data@)),
        forall|i: int|
            0 <= i < n && spec_flags_supported(spec_flag_of(entries[i].compression))
                ==> #[trigger] spec_extract_chunks(
                m.raw_chunks@,
                vols,
                m.map_entries@[i].chunk_ids@,
                false,
            ) == Some(spec_packed_file_content(entries[i].compression, entries[i].data@)),
{
    assert forall|i: int| 0 <= i < n implies #[trigger] spec_extract_chunks(
        m.raw_chunks@,
        vols,
        m.map_entries@[i].chunk_ids@,
        true,
    ) == Some(spec_packed_file_content(entries[i].compression, entries[i].data@)) by {
        lemma_pack_extract_one(entries, hl, m, vols, flags_v, blobs, pays, nvol, n, i);
    }
    assert forall|i: int|
        0 <= i < n && spec_flags_supported(spec_flag_of(entries[i].compression))
            implies #[trigger] spec_extract_chunks(
        m.raw_chunks@,
        vols,
        m.map_entries@[i].chunk_ids@,
        false,
    ) == Some(spec_packed_file_content(entries[i].compression, entries[i].data@)) by {
        lemma_pack_extract_one(entries, hl, m, vols, flags_v, blobs, pays, nvol, n, i);
    }
}

/// Pack a set of files into a fresh archive: assign directory ids,
/// compress every payload, lay the payloads out after the reserved header
/// space of volume zero (auxiliary volumes start at offset zero), and
/// serialize the final header with the observed offsets and lengths.
#[verifier::rlimit(100)]
#[verifier::spinoff_prover]
pub fn pack_archive(entries: &Vec<PackEntry>, split_names: &Vec<String>) -> (r: Result<
    PackOutput,
    DzipError,
>)
    ensures
        !spec_pack_input_ok(entries@, split_names.deep_view()) ==> r is Err,
        (spec_pack_input_ok(entries@, split_names.deep_view()) && entries@.len() < 0xFFFE && (
        forall|v: int|
            0 <= v < 1 + split_names@.len() ==> spec_vol_base(
                spec_pack_header_len(entries@, split_names.deep_view()),
                v,
            ) + (#[trigger] spec_vol_payload(entries@, v as u16, entries@.len() as int)).len()
                <= 0xFFFF_FFFF)) ==> r is Ok,
        match r {
            Ok(out) => {
                &&& spec_pack_input_ok(entries@, split_names.deep_view())
                &&& wf_metadata(out.metadata)
                &&& out.volumes@.len() == 1 + split_names@.len()
                &&& out.metadata.version == 0
                &&& out.metadata.split_file_names.deep_view() == split_names.deep_view()
                &&& out.metadata.user_files@.len() == entries@.len()
                &&& (forall|i: int|
                    0 <= i < entries@.len() ==> #[trigger] out.metadata.user_files@[i]@
                        == entries@[i].filename@)
                &&& out.metadata.map_entries@.len() == entries@.len()
                &&& (forall|i: int|
                    0 <= i < entries@.len() ==> (#[trigger] out.metadata.map_entries@[
                        i
                    ]).chunk_ids@ == seq![i as u16])
                &&& (forall|i: int|
                    0 <= i < entries@.len() ==> ((spec_root_dir(entries@[i].directory@) <==> (
                    #[trigger] out.metadata.map_entries@[i]).dir_idx == 0) && (
                    out.metadata.map_entries@[i].dir_idx != 0
                        ==> out.metadata.map_entries@[i].dir_idx
                        < out.metadata.directories@.len() && out.metadata.directories@[
                        out.metadata.map_entries@[i].dir_idx as int
                    ]@ == spec_archive_of(entries@[i].directory@))))
                &&& out.metadata.directories.deep_view() == seq!["."@] + spec_dirs_table(
                    entries@,
                    entries@.len() as int,
                )
                &&& spec_header_bytes(out.metadata).len() == spec_pack_header_len(
                    entries@,
                    split_names.deep_view(),
                )
                &&& out.metadata.raw_chunks@.len() == entries@.len()
                &&& (forall|i: int|
                    0 <= i < entries@.len() ==> {
                        let c = #[trigger] out.metadata.raw_chunks@[i];
                        c.id == i && c.flags == spec_flag_of(entries@[i].compression) && c.d_len
                            == entries@[i].data@.len() && c.file_idx == entries@[
                            i
                        ].archive_file_index && c.real_c_len == c.head_c_len && c.head_c_len
                            == spec_compress_payload(
                            entries@[i].compression,
                            entries@[i].data@,
                        ).len() && c.offset as int == spec_vol_base(
                            spec_pack_header_len(entries@, split_names.deep_view()),
                            c.file_idx as int,
                        ) + spec_vol_payload(entries@, c.file_idx, i).len()
                    })
                &&& out.volumes@[0]@ == spec_header_bytes(out.metadata) + spec_vol_payload(
                    entries@,
                    0u16,
                    entries@.len() as int,
                )
                &&& (forall|v: int|
                    1 <= v < out.volumes@.len() ==> #[trigger] out.volumes@[v]@
                        == spec_vol_payload(entries@, v as u16, entries@.len() as int))
                &&& (forall|v: int|
                    0 <= v < out.volumes@.len() ==> (#[trigger] out.volumes@[v]@).len()
                        <= 0xFFFF_FFFF)
                &&& out.volumes@[0]@.subrange(
                    0,
                    spec_header_bytes(out.metadata).len() as int,
                ) == spec_header_bytes(out.metadata)
                &&& out.metadata.main_file_len == out.volumes@[0]@.len()
                &&& (forall|i: int|
                    0 <= i < entries@.len() ==> #[trigger] spec_extract_chunks(
                        out.metadata.raw_chunks@,
                        out.volumes.deep_view(),
                        out.metadata.map_entries@[i].chunk_ids@,
                        true,
                    ) == Some(
                        spec_packed_file_content(entries@[i].compression, entries@[i].data@),
                    ))
                &&& (forall|i: int|
                    0 <= i < entries@.len() && spec_flags_supported(
                        spec_flag_of(entries@[i].compression),
                    ) ==> #[trigger] spec_extract_chunks(
                        out.metadata.raw_chunks@,
                        out.volumes.deep_view(),
                        out.metadata.map_entries@[i].chunk_ids@,
                        false,
                    ) == Some(
                        spec_packed_file_content(entries@[i].compression, entries@[i].data@),
                    ))
            },
            Err(_) => true,
        },
{
    let n = entries.len();
    if n > 0xFFFF {
        return Err(DzipError::InvalidInput(String::from_str("too many files")));
    }
    if split_names.len() >= 0xFFFF {
        return Err(DzipError::InvalidInput(String::from_str("too many volumes")));
    }
    // validate strings and volume indices
    let mut i: usize = 0;
    while i < n
        invariant
            i <= n,
            n == entries@.len(),
            split_names@.len() < 0xFFFF,
            forall|k: int|
                0 <= k < i ==> no_nul((#[trigger] entries@[k]).filename@) && no_nul(
                    entries@[k].directory@,
                ) && entries@[k].archive_file_index as int <= split_names@.len() && entries@[
                    k
                ].data@.len() <= 0xFFFF_FFFF,
        decreases n - i,
    {
        if !check_no_nul(entries[i].filename.as_str()) {
            return Err(
                DzipError::InvalidInput(String::from_str("file name holds a NUL byte")),
            );
        }
        if !check_no_nul(entries[i].directory.as_str()) {
            return Err(
                DzipError::InvalidInput(String::from_str("directory holds a NUL byte")),
            );
        }
        if entries[i].archive_file_index as usize > split_names.len() {
            return Err(
                DzipError::InvalidInput(String::from_str("unknown volume index")),
            );
        }
        if entries[i].data.len() as u64 > 0xFFFF_FFFFu64 {
            return Err(DzipError::Generic(String::from_str("file too large")));
        }
        i = i + 1;
    }
    let mut s: usize = 0;
    while s < split_names.len()
        invariant
            s <= split_names@.len(),
            forall|k: int| 0 <= k < s ==> no_nul((#[trigger] split_names@[k])@),
        decreases split_names@.len() - s,
    {
        if !check_no_nul(split_names[s].as_str()) {
            proof {
                assert(split_names.deep_view()[s as int] =~= split_names@[s as int]@);
            }
            return Err(
                DzipError::InvalidInput(String::from_str("volume name holds a NUL byte")),
            );
        }
        s = s + 1;
    }
    proof {
        assert forall|k: int| 0 <= k < split_names.deep_view().len() implies no_nul(
            #[trigger] split_names.deep_view()[k],
        ) by {
            assert(split_names.deep_view()[k] == split_names@[k]@);
        }
        assert(spec_pack_input_ok(entries@, split_names.deep_view()));
    }
    // assign directory ids, first seen first, storing archive-form strings
    let mut dirs: Vec<String> = Vec::new();
    let mut dir_ids: Vec<u16> = Vec::new();
    let mut i2: usize = 0;
    while i2 < n
        invariant
            i2 <= n,
            n == entries@.len(),
            dir_ids@.len() == i2,
            dirs@.len() <= i2,
            dirs@.len() <= 0xFFFE,
            dirs.deep_view() == spec_dirs_table(entries@, i2 as int),
            forall|k: int|
                0 <= k < i2 ==> ((spec_root_dir(entries@[k].directory@) <==> #[trigger] dir_ids@[k]
                    == 0) && (dir_ids@[k] != 0 ==> dir_ids@[k] as int <= dirs@.len() && dirs@[
                    dir_ids@[k] as int - 1
                ]@ == spec_archive_of(entries@[k].directory@))),
            forall|k: int| 0 <= k < dirs@.len() ==> no_nul(#[trigger] dirs@[k]@),
            forall|k: int|
                0 <= k < n ==> no_nul((#[trigger] entries@[k]).filename@) && no_nul(
                    entries@[k].directory@,
                ) && entries@[k].archive_file_index as int <= split_names@.len() && entries@[
                    k
                ].data@.len() <= 0xFFFF_FFFF,
        decreases n - i2,
    {
        let d_arch = to_archive_format(entries[i2].directory.as_str());
        let ghost dval = spec_archive_of(entries@[i2 as int].directory@);
        proof {
            reveal_strlit(".");
            lemma_archive_of_root(entries@[i2 as int].directory@);
        }
        if d_arch.as_str().unicode_len() == 0 || d_arch == String::from_str(".") {
            dir_ids.push(0);
            proof {
                assert(spec_root_dir(dval));
                assert(spec_dirs_table(entries@, i2 + 1 as int) == spec_dirs_table(
                    entries@,
                    i2 as int,
                ));
            }
        } else {
            proof {
                assert(!spec_root_dir(dval));
            }
            match find_dir(&dirs, &d_arch) {
                Some(id) => {
                    dir_ids.push(id);
                    proof {
                        assert(dirs.deep_view()[id as int - 1] =~= dirs@[id as int - 1]@);
                        assert(spec_dirs_table(entries@, i2 as int)[id as int - 1] == dval);
                        assert(spec_dirs_table(entries@, i2 as int).contains(dval));
                        assert(spec_dirs_table(entries@, i2 + 1 as int) == spec_dirs_table(
                            entries@,
                            i2 as int,
                        ));
                    }
                },
                None => {
                    if dirs.len() >= 0xFFFE {
                        proof {
                            assert(!(entries@.len() < 0xFFFE));
                        }
                        return Err(
                            DzipError::InvalidInput(
                                String::from_str("too many directories"),
                            ),
                        );
                    }
                    let ghost before_dv = dirs.deep_view();
                    let ghost before_view = dirs@;
                    dirs.push(d_arch.clone());
                    dir_ids.push(dirs.len() as u16);
                    proof {
                        lemma_archive_of_no_nul(entries@[i2 as int].directory@);
                        assert(!before_dv.contains(dval)) by {
                            if before_dv.contains(dval) {
                                let w = choose|w: int|
                                    0 <= w < before_dv.len() && before_dv[w] == dval;
                                assert(before_dv[w] =~= before_view[w]@);
                                assert(before_view[w]@ != dval);
                            }
                        }
                        assert(spec_dirs_table(entries@, i2 + 1 as int) == before_dv.push(dval));
                        assert(dirs.deep_view() =~= before_dv.push(dval)) by {
                            assert(forall|k: int|
                                0 <= k < before_view.len() ==> #[trigger] dirs@[k]
                                    == before_view[k]);
                            assert(forall|k: int|
                                0 <= k < dirs@.len() ==> #[trigger] dirs.deep_view()[k]
                                    =~= dirs@[k]@);
                            assert(forall|k: int|
                                0 <= k < before_view.len() ==> #[trigger] before_dv[k]
                                    =~= before_view[k]@);
                        }
                    }
                },
            }
        }
        i2 = i2 + 1;
    }
    // compress every payload
    let mut blobs: Vec<Vec<u8>> = Vec::new();
    let mut flags_v: Vec<u16> = Vec::new();
    let mut i3: usize = 0;
    while i3 < n
        invariant
            i3 <= n,
            n == entries@.len(),
            blobs@.len() == i3,
            flags_v@.len() == i3,
            forall|k: int|
                0 <= k < i3 ==> #[trigger] spec_blob_at(entries@, flags_v@, blobs.deep_view(), k),
        decreases n - i3,
    {
        let ghost bdv_flags = flags_v@;
        let (fl, blob) = compress_data(&entries[i3].data, entries[i3].compression);
        flags_v.push(fl);
        let ghost bdv = blobs.deep_view();
        let ghost bview = blobs@;
        blobs.push(blob);
        proof {
            assert forall|k: int| 0 <= k < i3 implies #[trigger] blobs.deep_view()[k] == bdv[
                k
            ] by {
                assert(blobs@[k] == bview[k]);
                assert(blobs.deep_view()[k] =~= blobs@[k]@);
                assert(bdv[k] =~= bview[k]@);
            }
            assert(blobs.deep_view()[i3 as int] =~= blobs@[i3 as int]@);
            assert forall|k: int| 0 <= k < i3 + 1 implies #[trigger] spec_blob_at(
                entries@,
                flags_v@,
                blobs.deep_view(),
                k,
            ) by {
                if k < i3 {
                    assert(blobs.deep_view()[k] == bdv[k]);
                    assert(spec_blob_at(entries@, bdv_flags, bdv, k));
                    assert(flags_v@[k] == bdv_flags[k]);
                } else {
                    assert(flags_v@[k] == spec_flag_of(entries@[k].compression));
                    assert(blobs.deep_view()[k] == blobs@[k]@);
                }
            }
        }
        i3 = i3 + 1;
    }
    // dummy chunk table with real flags but unknown offsets
    let mut chunks0: Vec<RawChunk> = Vec::new();
    let mut map: Vec<FileMapEntry> = Vec::new();
    let mut user_files: Vec<String> = Vec::new();
    let mut i4: usize = 0;
    while i4 < n
        invariant
            i4 <= n,
            n == entries@.len(),
            n <= 0xFFFF,
            dir_ids@.len() == n,
            flags_v@.len() == n,
            chunks0@.len() == i4,
            map@.len() == i4,
            user_files@.len() == i4,
            forall|k: int|
                0 <= k < i4 ==> (#[trigger] chunks0@[k]).id == k && chunks0@[k].flags == flags_v@[k]
                    && chunks0@[k].file_idx == entries@[k].archive_file_index,
            forall|k: int|
                0 <= k < i4 ==> (#[trigger] map@[k]).id == k && map@[k].dir_idx == dir_ids@[
                    k
                ] as usize && map@[k].chunk_ids@ == seq![k as u16],
            forall|k: int|
                0 <= k < i4 ==> #[trigger] user_files@[k]@ == entries@[k].filename@,
        decreases n - i4,
    {
        let mut ids: Vec<u16> = Vec::new();
        ids.push(i4 as u16);
        proof {
            assert(ids@ =~= seq![i4 as u16]);
        }
        chunks0.push(
            RawChunk {
                id: i4 as u16,
                offset: 0,
                head_c_len: 0,
                d_len: entries[i4].data.len() as u32,
                flags: flags_v[i4],
                file_idx: entries[i4].archive_file_index,
                real_c_len: 0,
            },
        );
        map.push(FileMapEntry { id: i4, dir_idx: dir_ids[i4] as usize, chunk_ids: ids });
        user_files.push(entries[i4].filename.clone());
        i4 = i4 + 1;
    }
    // directory table with the implicit root
    let mut directories: Vec<String> = Vec::new();
    directories.push(String::from_str("."));
    let mut i5: usize = 0;
    while i5 < dirs.len()
        invariant
            i5 <= dirs@.len(),
            directories@.len() == 1 + i5,
            directories@[0]@ == "."@,
            forall|k: int| 0 <= k < i5 ==> #[trigger] directories@[k + 1]@ == dirs@[k]@,
        decreases dirs@.len() - i5,
    {
        directories.push(dirs[i5].clone());
        i5 = i5 + 1;
    }
    let mut splits: Vec<String> = Vec::new();
    let mut i6: usize = 0;
    while i6 < split_names.len()
        invariant
            i6 <= split_names@.len(),
            splits@.len() == i6,
            forall|k: int| 0 <= k < i6 ==> #[trigger] splits@[k]@ == split_names@[k]@,
        decreases split_names@.len() - i6,
    {
        splits.push(split_names[i6].clone());
        i6 = i6 + 1;
    }
    // the range block is present exactly when some chunk carries DZ
    let mut has_dz = false;
    let mut i7: usize = 0;
    while i7 < chunks0.len()
        invariant
            i7 <= chunks0@.len(),
            has_dz == spec_has_dz(chunks0@.take(i7 as int)),
        decreases chunks0@.len() - i7,
    {
        if chunks0[i7].flags & CHUNK_DZ != 0 {
            proof {
                assert(chunks0@.take(i7 + 1 as int)[i7 as int].flags & CHUNK_DZ != 0);
            }
            has_dz = true;
        } else {
            proof {
                assert forall|k: int|
                    0 <= k < i7 + 1 && #[trigger] chunks0@.take(i7 + 1 as int)[k].flags & CHUNK_DZ
                        != 0 implies 0 <= k < i7 && chunks0@.take(i7 as int)[k].flags & CHUNK_DZ
                    != 0 by {
                    assert(chunks0@.take(i7 + 1 as int)[k] == chunks0@[k]);
                }
            }
        }
        i7 = i7 + 1;
    }
    proof {
        assert(chunks0@.take(chunks0@.len() as int) =~= chunks0@);
    }
    let range_settings = if has_dz {
        Some(
            RangeSettings {
                win_size: 0,
                flags: 0,
                offset_table_size: 0,
                offset_tables: 0,
                offset_contexts: 0,
                ref_length_table_size: 0,
                ref_length_tables: 0,
                ref_offset_table_size: 0,
                ref_offset_tables: 0,
                big_min_match: 0,
            },
        )
    } else {
        None
    };
    let m0 = ArchiveMetadata {
        version: 0,
        user_files,
        directories,
        map_entries: map,
        raw_chunks: chunks0,
        split_file_names: splits,
        range_settings,
        main_file_len: 0,
    };
    proof {
        assert(wf_metadata(m0)) by {
            assert forall|k: int| 0 <= k < m0.user_files@.len() implies no_nul(
                #[trigger] m0.user_files@[k]@,
            ) by {
                assert(m0.user_files@[k]@ == entries@[k].filename@);
            }
            assert forall|k: int| 1 <= k < m0.directories@.len() implies no_nul(
                #[trigger] m0.directories@[k]@,
            ) by {
                assert(m0.directories@[(k - 1) + 1]@ == dirs@[k - 1]@);
            }
            assert forall|k: int, j: int|
                0 <= k < m0.map_entries@.len() && 0 <= j < m0.map_entries@[k].chunk_ids@.len()
                    implies #[trigger] m0.map_entries@[k].chunk_ids@[j]
                != crate::CHUNK_LIST_TERMINATOR by {
                assert(m0.map_entries@[k].chunk_ids@ == seq![k as u16]);
            }
        }
    }
    let header0 = write_header(&m0);
    let hlen = header0.len();
    let ghost hl = header0@.len() as int;
    let ghost hdr_spec = spec_pack_header_len(entries@, split_names.deep_view());
    proof {
        let fname_seq = Seq::new(entries@.len(), |i: int| entries@[i].filename@);
        assert forall|k: int| 0 <= k < n implies #[trigger] m0.user_files.deep_view()[k]
            == fname_seq[k] by {
            assert(m0.user_files.deep_view()[k] =~= m0.user_files@[k]@);
        }
        assert(m0.user_files.deep_view() =~= fname_seq);
        assert forall|k: int| 0 <= k < m0.directories@.len() implies #[trigger] m0
            .directories.deep_view()[k] == (seq!["."@] + dirs.deep_view())[k] by {
            assert(m0.directories.deep_view()[k] =~= m0.directories@[k]@);
            if k >= 1 {
                assert(m0.directories@[(k - 1) + 1]@ == dirs@[k - 1]@);
                assert(dirs.deep_view()[k - 1] =~= dirs@[k - 1]@);
            }
        }
        assert(m0.directories.deep_view() =~= seq!["."@] + dirs.deep_view());
        assert(m0.directories.deep_view().drop_first() =~= spec_dirs_table(entries@, n as int));
        assert forall|k: int| 0 <= k < n implies (#[trigger] m0.map_entries@[k]).chunk_ids@.len()
            == 1 by {
            assert(m0.map_entries@[k].chunk_ids@ == seq![k as u16]);
        }
        assert forall|k: int| 0 <= k < split_names@.len() implies #[trigger] m0
            .split_file_names.deep_view()[k] == split_names.deep_view()[k] by {
            assert(m0.split_file_names.deep_view()[k] =~= m0.split_file_names@[k]@);
            assert(split_names.deep_view()[k] =~= split_names@[k]@);
        }
        assert(m0.split_file_names.deep_view() =~= split_names.deep_view());
        lemma_pack_header_len(
            entries@,
            split_names.deep_view(),
            m0,
            n as int,
            flags_v@,
            blobs.deep_view(),
        );
        assert(hl == hdr_spec);
    }
    if hlen as u64 > 0xFFFF_FFFFu64 {
        proof {
            assert(spec_vol_base(hdr_spec, 0) + spec_vol_payload(
                entries@,
                0u16,
                n as int,
            ).len() > 0xFFFF_FFFF);
        }
        return Err(DzipError::Generic(String::from_str("header too large")));
    }
    let nvol = split_names.len() + 1;
    let mut pays: Vec<Vec<u8>> = Vec::new();
    let mut pv: usize = 0;
    while pv < nvol
        invariant
            pv <= nvol,
            pays@.len() == pv,
            forall|v: int| 0 <= v < pv ==> (#[trigger] pays.deep_view()[v]).len() == 0,
        decreases nvol - pv,
    {
        let ghost qdv = pays.deep_view();
        let ghost qview = pays@;
        pays.push(Vec::new());
        proof {
            assert forall|v: int| 0 <= v < pv + 1 implies (#[trigger] pays.deep_view()[v]).len()
                == 0 by {
                assert(pays.deep_view()[v] =~= pays@[v]@);
                if v < pv {
                    assert(pays@[v] == qview[v]);
                    assert(qdv[v] =~= qview[v]@);
                }
            }
        }
        pv = pv + 1;
    }
    let mut chunks: Vec<RawChunk> = Vec::new();
    let mut i8: usize = 0;
    proof {
        assert forall|v: int| 0 <= v < nvol implies #[trigger] pays.deep_view()[v]
            == spec_vol_payload(entries@, v as u16, 0) by {
            assert(pays.deep_view()[v] =~= Seq::<u8>::empty());
        }
    }
    while i8 < n
        invariant
            i8 <= n,
            n == entries@.len(),
            n <= 0xFFFF,
            blobs@.len() == n,
            flags_v@.len() == n,
            nvol == split_names@.len() + 1,
            nvol <= 0xFFFF,
            pays@.len() == nvol,
            hl <= 0xFFFF_FFFF,
            hl == hlen as int,
            hl == spec_pack_header_len(entries@, split_names.deep_view()),
            forall|k: int|
                0 <= k < n ==> #[trigger] spec_blob_at(entries@, flags_v@, blobs.deep_view(), k),
            forall|k: int|
                0 <= k < n ==> (#[trigger] entries@[k]).archive_file_index as int
                    <= split_names@.len() && entries@[k].data@.len() <= 0xFFFF_FFFF,
            forall|v: int|
                0 <= v < nvol ==> #[trigger] pays.deep_view()[v] == spec_vol_payload(
                    entries@,
                    v as u16,
                    i8 as int,
                ),
            forall|v: int|
                0 <= v < nvol ==> spec_vol_base(hl, v) + (#[trigger] spec_vol_payload(
                    entries@,
                    v as u16,
                    i8 as int,
                )).len() <= 0xFFFF_FFFF,
            chunks@.len() == i8,
            forall|k: int|
                0 <= k < i8 ==> spec_chunk_at(entries@, hl, #[trigger] chunks@[k], k),
        decreases n - i8,
    {
        let v = entries[i8].archive_file_index as usize;
        let base: u64 = if v == 0 {
            hlen as u64
        } else {
            0
        };
        let cur: u64 = pays[v].len() as u64;
        proof {
            assert(pays.deep_view()[v as int] =~= pays@[v as int]@);
            assert(pays.deep_view()[v as int] == spec_vol_payload(entries@, v as u16, i8 as int));
            assert(spec_vol_base(hl, v as int) + spec_vol_payload(
                entries@,
                v as u16,
                i8 as int,
            ).len() <= 0xFFFF_FFFF);
            assert(base == spec_vol_base(hl, v as int));
            assert(cur == spec_vol_payload(entries@, v as u16, i8 as int).len());
            assert(base + cur <= 0xFFFF_FFFF);
        }
        let blen: u64 = blobs[i8].len() as u64;
        if blen > 0xFFFF_FFFFu64 - (base + cur) {
            proof {
                let vk = entries@[i8 as int].archive_file_index;
                assert(spec_blob_at(entries@, flags_v@, blobs.deep_view(), i8 as int));
                assert(blobs.deep_view()[i8 as int] =~= blobs@[i8 as int]@);
                assert(spec_vol_payload(entries@, vk, i8 + 1 as int)
                    == spec_vol_payload(entries@, vk, i8 as int) + spec_compress_payload(
                    entries@[i8 as int].compression,
                    entries@[i8 as int].data@,
                ));
                lemma_vol_payload_split(entries@, vk, i8 + 1 as int, n as int);
                assert(spec_vol_base(hl, v as int) + spec_vol_payload(
                    entries@,
                    vk,
                    n as int,
                ).len() > 0xFFFF_FFFF);
            }
            return Err(DzipError::Generic(String::from_str("volume too large")));
        }
        let off32: u32 = (base + cur) as u32;
        let ghost pdv = pays.deep_view();
        let ghost pview = pays@;
        let slot = &mut pays[v];
        slot.extend_from_slice(blobs[i8].as_slice());
        proof {
            let blob = blobs.deep_view()[i8 as int];
            assert(spec_blob_at(entries@, flags_v@, blobs.deep_view(), i8 as int));
            assert(blob == spec_compress_payload(
                entries@[i8 as int].compression,
                entries@[i8 as int].data@,
            ));
            assert(pays@[v as int]@ =~= pdv[v as int] + blob);
            assert forall|vv: int| 0 <= vv < nvol implies #[trigger] pays.deep_view()[vv]
                == spec_vol_payload(entries@, vv as u16, i8 + 1 as int) by {
                assert(pdv[vv] == spec_vol_payload(entries@, vv as u16, i8 as int));
                if vv == v {
                    assert(entries@[i8 as int].archive_file_index == vv as u16);
                    assert(pays.deep_view()[vv] =~= pays@[vv]@);
                    assert(spec_vol_payload(entries@, vv as u16, i8 + 1 as int)
                        == spec_vol_payload(entries@, vv as u16, i8 as int)
                        + spec_compress_payload(
                        entries@[i8 as int].compression,
                        entries@[i8 as int].data@,
                    ));
                } else {
                    assert(pays@[vv] == pview[vv]);
                    assert(pays.deep_view()[vv] =~= pays@[vv]@);
                    assert(pdv[vv] =~= pview[vv]@);
                    assert(entries@[i8 as int].archive_file_index != vv as u16);
                    assert(spec_vol_payload(entries@, vv as u16, i8 + 1 as int)
                        == spec_vol_payload(entries@, vv as u16, i8 as int));
                }
            }
            assert forall|vv: int| 0 <= vv < nvol implies spec_vol_base(hl, vv) + (
            #[trigger] spec_vol_payload(entries@, vv as u16, i8 + 1 as int)).len() <= 0xFFFF_FFFF
                by {
                assert(spec_vol_base(hl, vv) + spec_vol_payload(
                    entries@,
                    vv as u16,
                    i8 as int,
                ).len() <= 0xFFFF_FFFF);
                if vv == v {
                    assert(spec_vol_payload(entries@, vv as u16, i8 + 1 as int).len() == cur
                        + blob.len());
                } else {
                    assert(spec_vol_payload(entries@, vv as u16, i8 + 1 as int)
                        == spec_vol_payload(entries@, vv as u16, i8 as int));
                }
            }
        }
        let new_chunk = RawChunk {
            id: i8 as u16,
            offset: off32,
            head_c_len: blobs[i8].len() as u32,
            d_len: entries[i8].data.len() as u32,
            flags: flags_v[i8],
            file_idx: entries[i8].archive_file_index,
            real_c_len: blobs[i8].len() as u32,
        };
        proof {
            assert(spec_blob_at(entries@, flags_v@, blobs.deep_view(), i8 as int));
            assert(blobs.deep_view()[i8 as int] =~= blobs@[i8 as int]@);
            assert(new_chunk.head_c_len == spec_compress_payload(
                entries@[i8 as int].compression,
                entries@[i8 as int].data@,
            ).len());
            assert(new_chunk.offset as int == spec_vol_base(
                hl,
                entries@[i8 as int].archive_file_index as int,
            ) + spec_vol_payload(
                entries@,
                entries@[i8 as int].archive_file_index,
                i8 as int,
            ).len());
            assert(spec_chunk_at(entries@, hl, new_chunk, i8 as int));
        }
        chunks.push(new_chunk);
        i8 = i8 + 1;
    }
    // final metadata with the observed chunk table
    let ghost m0snap = m0;
    let mut m = m0;
    m.raw_chunks = chunks;
    proof {
        assert(wf_metadata(m)) by {
            assert forall|k: int|
                0 <= k < m.raw_chunks@.len() implies (#[trigger] m.raw_chunks@[k]).id == k by {}
            assert(spec_has_dz(m.raw_chunks@) <==> spec_has_dz(m0snap.raw_chunks@)) by {
                if spec_has_dz(m.raw_chunks@) {
                    let w = choose|k: int|
                        0 <= k < m.raw_chunks@.len() && #[trigger] m.raw_chunks@[k].flags
                            & CHUNK_DZ != 0;
                    assert(spec_chunk_at(entries@, hl, m.raw_chunks@[w], w));
                    assert(spec_blob_at(entries@, flags_v@, blobs.deep_view(), w));
                    assert(m0snap.raw_chunks@[w].flags == flags_v@[w]);
                    assert(m0snap.raw_chunks@[w].flags & CHUNK_DZ != 0);
                }
                if spec_has_dz(m0snap.raw_chunks@) {
                    let w = choose|k: int|
                        0 <= k < m0snap.raw_chunks@.len() && #[trigger] m0snap.raw_chunks@[k].flags
                            & CHUNK_DZ != 0;
                    assert(spec_chunk_at(entries@, hl, m.raw_chunks@[w], w));
                    assert(spec_blob_at(entries@, flags_v@, blobs.deep_view(), w));
                    assert(m0snap.raw_chunks@[w].flags == flags_v@[w]);
                    assert(m.raw_chunks@[w].flags & CHUNK_DZ != 0);
                }
            }
        }
        lemma_chunks_bytes_len(m.raw_chunks@);
        lemma_chunks_bytes_len(m0snap.raw_chunks@);
        assert(spec_header_bytes(m).len() == spec_header_bytes(m0snap).len());
    }
    let ghost mmid = m;
    let header = write_header(&m);
    let mut vol0 = header;
    vol0.extend_from_slice(pays[0].as_slice());
    let ghost v0view = vol0@;
    proof {
        assert(pays.deep_view()[0] =~= pays@[0]@);
        assert(pays.deep_view()[0] == spec_vol_payload(entries@, 0u16, n as int));
        assert(spec_vol_base(hl, 0) + spec_vol_payload(entries@, 0u16, n as int).len()
            <= 0xFFFF_FFFF);
    }
    let main_len: u64 = hlen as u64 + pays[0].len() as u64;
    m.main_file_len = main_len;
    proof {
        assert(spec_header_bytes(m) == spec_header_bytes(mmid));
        assert(v0view == spec_header_bytes(m) + pays.deep_view()[0]) by {
            assert(pays.deep_view()[0] == pays@[0]@);
        }
        assert(v0view.len() == main_len);
    }
    let mut volumes: Vec<Vec<u8>> = Vec::new();
    volumes.push(vol0);
    let mut v9: usize = 1;
    while v9 < nvol
        invariant
            1 <= v9 <= nvol,
            pays@.len() == nvol,
            volumes@.len() == v9,
            volumes@[0]@ == v0view,
            forall|k: int|
                1 <= k < v9 ==> #[trigger] volumes.deep_view()[k] == pays.deep_view()[k],
        decreases nvol - v9,
    {
        let ghost wdv = volumes.deep_view();
        let ghost wview = volumes@;
        volumes.push(vstd::slice::slice_to_vec(pays[v9].as_slice()));
        proof {
            assert forall|k: int| 1 <= k < v9 + 1 implies #[trigger] volumes.deep_view()[k]
                == pays.deep_view()[k] by {
                assert(volumes.deep_view()[k] =~= volumes@[k]@);
                if k < v9 {
                    assert(volumes@[k] == wview[k]);
                    assert(wdv[k] =~= wview[k]@);
                } else {
                    assert(pays.deep_view()[k] =~= pays@[k]@);
                }
            }
        }
        v9 = v9 + 1;
    }
    proof {
        assert(volumes@[0]@.subrange(0, spec_header_bytes(m).len() as int) =~= spec_header_bytes(
            m,
        ));
        assert forall|i: int|
            0 <= i < entries@.len() && (#[trigger] m.map_entries@[i]).dir_idx != 0 implies m
            .directories@[m.map_entries@[i].dir_idx as int]@ == spec_archive_of(
            entries@[i].directory@,
        ) by {
            assert(m.map_entries@[i].dir_idx == dir_ids@[i] as usize);
            let id = dir_ids@[i] as int;
            assert(dirs@[id - 1]@ == spec_archive_of(entries@[i].directory@));
            assert(m.directories@[(id - 1) + 1]@ == dirs@[id - 1]@);
        }
        assert forall|k: int| 0 <= k < m.directories@.len() implies #[trigger] m
            .directories.deep_view()[k] == (seq!["."@] + spec_dirs_table(
            entries@,
            n as int,
        ))[k] by {
            assert(m.directories.deep_view()[k] =~= m.directories@[k]@);
            if k >= 1 {
                assert(m.directories@[(k - 1) + 1]@ == dirs@[k - 1]@);
                assert(dirs.deep_view()[k - 1] =~= dirs@[k - 1]@);
            }
        }
        assert(m.directories.deep_view() =~= seq!["."@] + spec_dirs_table(entries@, n as int));
        assert(spec_header_bytes(m).len() == hdr_spec);
        assert forall|i: int| 0 <= i < entries@.len() implies (
        #[trigger] m.raw_chunks@[i]).offset as int == spec_vol_base(
            hdr_spec,
            m.raw_chunks@[i].file_idx as int,
        ) + spec_vol_payload(entries@, m.raw_chunks@[i].file_idx, i).len() by {
            assert(spec_chunk_at(entries@, hl, m.raw_chunks@[i], i));
        }
        let vols = volumes.deep_view();
        assert(vols.len() == nvol);
        assert(vols[0] =~= volumes@[0]@);
        assert(vols.index(0) == spec_header_bytes(m) + pays.deep_view().index(0));
        assert(pays.deep_view()[0] == spec_vol_payload(entries@, 0u16, n as int));
        assert forall|v: int| 1 <= v < volumes@.len() implies #[trigger] volumes@[v]@
            == spec_vol_payload(entries@, v as u16, n as int) by {
            assert(volumes.deep_view()[v] == pays.deep_view()[v]);
            assert(volumes.deep_view()[v] =~= volumes@[v]@);
        }
        assert forall|v: int| 0 <= v < volumes@.len() implies (#[trigger] volumes@[v]@).len()
            <= 0xFFFF_FFFF by {
            assert(spec_vol_base(hl, v) + spec_vol_payload(entries@, v as u16, n as int).len()
                <= 0xFFFF_FFFF);
            if v == 0 {
                assert(volumes@[0]@.len() == hl + spec_vol_payload(
                    entries@,
                    0u16,
                    n as int,
                ).len());
            }
        }
        lemma_pack_extract_all(
            entries@,
            hl,
            m,
            vols,
            flags_v@,
            blobs.deep_view(),
            pays.deep_view(),
            nvol as int,
            n as int,
        );
    }
    Ok(PackOutput { metadata: m, volumes })
}

/// Round trip for a packed archive, end to end at the model level:
/// parsing volume zero restores the writer's record, size correction
/// returns the parsed chunk table to exactly the writer's, and extracting
/// every file from that corrected table yields exactly what was packed.
/// Every hypothesis is a clause of [`pack_archive`]'s postcondition.
#[verifier::rlimit(100)]
#[verifier::spinoff_prover]
pub proof fn lemma_pack_round_trip(
    entries: Seq<PackEntry>,
    splits: Seq<Seq<char>>,
    m: ArchiveMetadata,
    volumes: Seq<Seq<u8>>,
)
    requires
        wf_metadata(m),
        volumes.len() == 1 + splits.len(),
        m.raw_chunks@.len() == entries.len(),
        m.map_entries@.len() == entries.len(),
        forall|i: int|
            0 <= i < entries.len() ==> {
                let c = #[trigger] m.raw_chunks@[i];
                c.id == i && c.flags == spec_flag_of(entries[i].compression) && c.d_len
                    == entries[i].data@.len() && c.file_idx == entries[i].archive_file_index
                    && c.real_c_len == c.head_c_len && c.head_c_len == spec_compress_payload(
                    entries[i].compression,
                    entries[i].data@,
                ).len() && c.offset as int == spec_vol_base(
                    spec_pack_header_len(entries, splits),
                    c.file_idx as int,
                ) + spec_vol_payload(entries, c.file_idx, i).len()
            },
        forall|i: int|
            0 <= i < entries.len() ==> (#[trigger] m.map_entries@[i]).chunk_ids@ == seq![i as u16],
        forall|i: int|
            0 <= i < entries.len() ==> ((#[trigger] entries[i]).archive_file_index as int)
                <= splits.len(),
        spec_header_bytes(m).len() == spec_pack_header_len(entries, splits),
        volumes.index(0) == spec_header_bytes(m) + spec_vol_payload(
            entries,
            0u16,
            entries.len() as int,
        ),
        forall|v: int|
            1 <= v < volumes.len() ==> #[trigger] volumes[v] == spec_vol_payload(
                entries,
                v as u16,
                entries.len() as int,
            ),
        forall|v: int| 0 <= v < volumes.len() ==> (#[trigger] volumes[v]).len() <= 0xFFFF_FFFF,
        forall|i: int|
            0 <= i < entries.len() ==> #[trigger] spec_extract_chunks(
                m.raw_chunks@,
                volumes,
                m.map_entries@[i].chunk_ids@,
                true,
            ) == Some(spec_packed_file_content(entries[i].compression, entries[i].data@)),
    ensures
        spec_load(volumes.index(0)) == Some(
            (meta_model_of(m), spec_header_bytes(m).len() as int),
        ),
        spec_corrected_chunks(meta_model_of(m).raw_chunks, spec_unpack_lens(volumes))
            == m.raw_chunks@,
        forall|i: int|
            0 <= i < entries.len() ==> #[trigger] spec_extract_chunks(
                spec_corrected_chunks(meta_model_of(m).raw_chunks, spec_unpack_lens(volumes)),
                volumes,
                meta_model_of(m).map_entries[i].chunk_ids,
                true,
            ) == Some(spec_packed_file_content(entries[i].compression, entries[i].data@)),
{
    let n = entries.len() as int;
    let hl = spec_pack_header_len(entries, splits);
    let mmx = meta_model_of(m);
    assert(volumes[0].subrange(0, spec_header_bytes(m).len() as int) =~= spec_header_bytes(m));
    lemma_pack_load_round_trip(m, volumes.index(0));
    let lens = spec_unpack_lens(volumes);
    assert(mmx.raw_chunks.len() == n);
    assert forall|k: int| 0 <= k < n implies #[trigger] mmx.raw_chunks[k] == (RawChunk {
        id: k as u16,
        real_c_len: 0,
        ..m.raw_chunks@[k]
    }) by {}
    assert forall|v: int| 0 <= v < lens.len() implies (#[trigger] lens[v]) as int
        == spec_vol_base(hl, v) + spec_vol_payload(entries, v as u16, n).len() by {
        if v == 0 {
            assert(volumes[0].len() == spec_header_bytes(m).len() + spec_vol_payload(
                entries,
                0u16,
                n,
            ).len());
        }
    }
    lemma_correction_preserves_layout(entries, hl, mmx.raw_chunks, lens);
    assert(spec_corrected_chunks(mmx.raw_chunks, lens) =~= m.raw_chunks@) by {
        assert forall|k: int| 0 <= k < n implies #[trigger] spec_corrected_chunks(
            mmx.raw_chunks,
            lens,
        )[k] == m.raw_chunks@[k] by {
            assert(crate::correct::spec_corrected_len(mmx.raw_chunks, lens, k)
                == mmx.raw_chunks[k].head_c_len);
        }
    }
    assert forall|i: int| 0 <= i < n implies #[trigger] spec_extract_chunks(
        spec_corrected_chunks(mmx.raw_chunks, lens),
        volumes,
        mmx.map_entries[i].chunk_ids,
        true,
    ) == Some(spec_packed_file_content(entries[i].compression, entries[i].data@)) by {
        assert(mmx.map_entries[i].chunk_ids == m.map_entries@[i].chunk_ids@);
    }
}

} // verus!
