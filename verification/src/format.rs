use vstd::prelude::*;
use vstd::utf8::{encode_utf8, encode_utf8_valid_utf8, encode_utf8_decode_utf8, char_is_scalar};
use crate::bytes::{spec_u16_bytes, spec_u32_bytes, push_u16, push_u32};
use crate::error::DzipError;
use crate::flags::CHUNK_DZ;
use crate::model::{ArchiveMetadata, FileMapEntry, RangeSettings, RawChunk};
use crate::MAGIC;
use crate::utils::{spec_parse_cstr, read_null_term_string};
use crate::bytes::{spec_le16, spec_le32, read_u16, read_u32};
use vstd::string::StringExecFns;
use crate::CHUNK_LIST_TERMINATOR;

verus! {

/// A string that can be stored null-terminated: it holds no NUL character.
pub open spec fn no_nul(s: Seq<char>) -> bool {
    forall|i: int| 0 <= i < s.len() ==> s[i] != '\0'
}

/// The wire form of one string: its UTF-8 bytes and a zero terminator.
pub open spec fn spec_cstr_bytes(s: Seq<char>) -> Seq<u8> {
    encode_utf8(s) + seq![0u8]
}

/// The wire form of a string table: each entry null-terminated, in order.
pub open spec fn spec_strings_bytes(ss: Seq<Seq<char>>) -> Seq<u8>
    decreases ss.len(),
{
    if ss.len() == 0 {
        Seq::empty()
    } else {
        spec_cstr_bytes(ss[0]) + spec_strings_bytes(ss.drop_first())
    }
}

/// Appending a string extends the table bytes at the end.
pub proof fn lemma_strings_bytes_push(ss: Seq<Seq<char>>, s: Seq<char>)
    ensures
        spec_strings_bytes(ss.push(s)) == spec_strings_bytes(ss) + spec_cstr_bytes(s),
    decreases ss.len(),
{
    if ss.len() == 0 {
        assert(ss.push(s)[0] == s);
        assert(ss.push(s).drop_first() =~= Seq::<Seq<char>>::empty());
        assert(spec_strings_bytes(Seq::<Seq<char>>::empty()) == Seq::<u8>::empty());
        assert(spec_strings_bytes(ss.push(s)) =~= spec_cstr_bytes(s));
        assert(spec_strings_bytes(ss) + spec_cstr_bytes(s) =~= spec_cstr_bytes(s));
    } else {
        lemma_strings_bytes_push(ss.drop_first(), s);
        assert(ss.push(s)[0] == ss[0]);
        assert(ss.push(s).drop_first() =~= ss.drop_first().push(s));
        assert(spec_cstr_bytes(ss[0]) + (spec_strings_bytes(ss.drop_first()) + spec_cstr_bytes(s))
            =~= (spec_cstr_bytes(ss[0]) + spec_strings_bytes(ss.drop_first())) + spec_cstr_bytes(
            s,
        ));
    }
}

/// The wire form of a chunk-id list: each id as two bytes, then the
/// terminator.
pub open spec fn spec_ids_bytes(ids: Seq<u16>) -> Seq<u8>
    decreases ids.len(),
{
    if ids.len() == 0 {
        spec_u16_bytes(CHUNK_LIST_TERMINATOR)
    } else {
        spec_u16_bytes(ids[0]) + spec_ids_bytes(ids.drop_first())
    }
}

/// The wire form of one file-map entry: directory id, chunk ids,
/// terminator.
pub open spec fn spec_map_entry_bytes(e: FileMapEntry) -> Seq<u8> {
    spec_u16_bytes(e.dir_idx as u16) + spec_ids_bytes(e.chunk_ids@)
}

/// The wire form of the whole file map.
pub open spec fn spec_map_bytes(es: Seq<FileMapEntry>) -> Seq<u8>
    decreases es.len(),
{
    if es.len() == 0 {
        Seq::empty()
    } else {
        spec_map_entry_bytes(es[0]) + spec_map_bytes(es.drop_first())
    }
}

/// Appending a map entry extends the map bytes at the end.
pub proof fn lemma_map_bytes_push(es: Seq<FileMapEntry>, e: FileMapEntry)
    ensures
        spec_map_bytes(es.push(e)) == spec_map_bytes(es) + spec_map_entry_bytes(e),
    decreases es.len(),
{
    if es.len() == 0 {
        assert(es.push(e)[0] == e);
        assert(es.push(e).drop_first() =~= Seq::<FileMapEntry>::empty());
        assert(spec_map_bytes(Seq::<FileMapEntry>::empty()) == Seq::<u8>::empty());
        assert(spec_map_bytes(es.push(e)) =~= spec_map_entry_bytes(e));
        assert(spec_map_bytes(es) + spec_map_entry_bytes(e) =~= spec_map_entry_bytes(e));
    } else {
        lemma_map_bytes_push(es.drop_first(), e);
        assert(es.push(e)[0] == es[0]);
        assert(es.push(e).drop_first() =~= es.drop_first().push(e));
        assert(spec_map_entry_bytes(es[0]) + (spec_map_bytes(es.drop_first())
            + spec_map_entry_bytes(e)) =~= (spec_map_entry_bytes(es[0]) + spec_map_bytes(
            es.drop_first(),
        )) + spec_map_entry_bytes(e));
    }
}

/// The sixteen wire bytes of one chunk record.
pub open spec fn spec_chunk_bytes(c: RawChunk) -> Seq<u8> {
    spec_u32_bytes(c.offset) + spec_u32_bytes(c.head_c_len) + spec_u32_bytes(c.d_len)
        + spec_u16_bytes(c.flags) + spec_u16_bytes(c.file_idx)
}

/// The wire form of the chunk table.
pub open spec fn spec_chunks_bytes(cs: Seq<RawChunk>) -> Seq<u8>
    decreases cs.len(),
{
    if cs.len() == 0 {
        Seq::empty()
    } else {
        spec_chunk_bytes(cs[0]) + spec_chunks_bytes(cs.drop_first())
    }
}

/// Appending a chunk extends the table bytes at the end.
pub proof fn lemma_chunks_bytes_push(cs: Seq<RawChunk>, c: RawChunk)
    ensures
        spec_chunks_bytes(cs.push(c)) == spec_chunks_bytes(cs) + spec_chunk_bytes(c),
    decreases cs.len(),
{
    if cs.len() == 0 {
        assert(cs.push(c)[0] == c);
        assert(cs.push(c).drop_first() =~= Seq::<RawChunk>::empty());
        assert(spec_chunks_bytes(Seq::<RawChunk>::empty()) == Seq::<u8>::empty());
        assert(spec_chunks_bytes(cs.push(c)) =~= spec_chunk_bytes(c));
        assert(spec_chunks_bytes(cs) + spec_chunk_bytes(c) =~= spec_chunk_bytes(c));
    } else {
        lemma_chunks_bytes_push(cs.drop_first(), c);
        assert(cs.push(c)[0] == cs[0]);
        assert(cs.push(c).drop_first() =~= cs.drop_first().push(c));
        assert(spec_chunk_bytes(cs[0]) + (spec_chunks_bytes(cs.drop_first()) + spec_chunk_bytes(c))
            =~= (spec_chunk_bytes(cs[0]) + spec_chunks_bytes(cs.drop_first())) + spec_chunk_bytes(
            c,
        ));
    }
}

/// The ten wire bytes of the range-settings block.
pub open spec fn spec_range_bytes(rs: RangeSettings) -> Seq<u8> {
    seq![
        rs.win_size,
        rs.flags,
        rs.offset_table_size,
        rs.offset_tables,
        rs.offset_contexts,
        rs.ref_length_table_size,
        rs.ref_length_tables,
        rs.ref_offset_table_size,
        rs.ref_offset_tables,
        rs.big_min_match,
    ]
}

/// Whether any chunk in the table carries the DZ-range flag.
pub open spec fn spec_has_dz(cs: Seq<RawChunk>) -> bool {
    exists|i: int| 0 <= i < cs.len() && #[trigger] cs[i].flags & CHUNK_DZ != 0
}

/// A metadata record the format can store: counts fit their wire fields,
/// the implicit root heads the directory list, strings are NUL-free, map
/// entries and chunks are indexed in order, chunk ids avoid the
/// terminator value, and the range block is present exactly when a chunk
/// carries the DZ-range flag.
pub open spec fn wf_metadata(m: ArchiveMetadata) -> bool {
    &&& m.user_files@.len() <= 0xFFFF
    &&& 1 <= m.directories@.len() <= 0xFFFF
    &&& m.directories@[0]@ == "."@
    &&& m.map_entries@.len() == m.user_files@.len()
    &&& m.raw_chunks@.len() <= 0xFFFF
    &&& m.split_file_names@.len() < 0xFFFF
    &&& (forall|i: int| 0 <= i < m.user_files@.len() ==> no_nul(#[trigger] m.user_files@[i]@))
    &&& (forall|i: int| 1 <= i < m.directories@.len() ==> no_nul(#[trigger] m.directories@[i]@))
    &&& (forall|i: int|
        0 <= i < m.split_file_names@.len() ==> no_nul(#[trigger] m.split_file_names@[i]@))
    &&& (forall|i: int|
        0 <= i < m.map_entries@.len() ==> (#[trigger] m.map_entries@[i]).id == i
            && m.map_entries@[i].dir_idx <= 0xFFFF)
    &&& (forall|i: int, j: int|
        0 <= i < m.map_entries@.len() && 0 <= j < m.map_entries@[i].chunk_ids@.len()
            ==> #[trigger] m.map_entries@[i].chunk_ids@[j] != CHUNK_LIST_TERMINATOR)
    &&& (forall|i: int| 0 <= i < m.raw_chunks@.len() ==> (#[trigger] m.raw_chunks@[i]).id == i)
    &&& (m.range_settings is Some <==> spec_has_dz(m.raw_chunks@))
}

/// The full wire form of a header: settings, string table, file map,
/// chunk settings, chunk table, volume list, and the optional range
/// block.  The stored directory count includes the implicit root; the
/// root itself stores no string.
pub open spec fn spec_header_bytes(m: ArchiveMetadata) -> Seq<u8> {
    spec_u32_bytes(MAGIC) + spec_u16_bytes(m.user_files@.len() as u16) + spec_u16_bytes(
        m.directories@.len() as u16,
    ) + seq![m.version] + spec_strings_bytes(m.user_files.deep_view()) + spec_strings_bytes(
        m.directories.deep_view().drop_first(),
    ) + spec_map_bytes(m.map_entries@) + spec_u16_bytes((m.split_file_names@.len() + 1) as u16)
        + spec_u16_bytes(m.raw_chunks@.len() as u16) + spec_chunks_bytes(m.raw_chunks@)
        + spec_strings_bytes(m.split_file_names.deep_view()) + (match m.range_settings {
        Some(rs) => spec_range_bytes(rs),
        None => Seq::empty(),
    })
}

/// Ghost mirror of one file-map entry, for stating what parsing returns.
pub struct MapEntryModel {
    pub dir_idx: u16,
    pub chunk_ids: Seq<u16>,
}

/// Parse `n` null-terminated strings in a row.
pub open spec fn spec_parse_strings(b: Seq<u8>, pos: int, n: nat) -> (Seq<Seq<char>>, int)
    decreases n,
{
    if n == 0 {
        (Seq::empty(), pos)
    } else {
        let (s, p2) = spec_parse_cstr(b, pos);
        let (rest, p3) = spec_parse_strings(b, p2, (n - 1) as nat);
        (seq![s] + rest, p3)
    }
}

/// Parse a 16-bit little-endian value, if two bytes remain.
pub open spec fn spec_parse_u16(b: Seq<u8>, pos: int) -> Option<(u16, int)> {
    if 0 <= pos && pos + 2 <= b.len() {
        Some((spec_le16(b[pos], b[pos + 1]), pos + 2))
    } else {
        None
    }
}

/// Parse a 32-bit little-endian value, if four bytes remain.
pub open spec fn spec_parse_u32(b: Seq<u8>, pos: int) -> Option<(u32, int)> {
    if 0 <= pos && pos + 4 <= b.len() {
        Some((spec_le32(b[pos], b[pos + 1], b[pos + 2], b[pos + 3]), pos + 4))
    } else {
        None
    }
}

/// Parse chunk ids up to and including the terminator.
pub open spec fn spec_parse_ids(b: Seq<u8>, pos: int) -> Option<(Seq<u16>, int)>
    decreases b.len() - pos,
{
    match spec_parse_u16(b, pos) {
        None => None,
        Some((v, p2)) => if v == CHUNK_LIST_TERMINATOR {
            Some((Seq::empty(), p2))
        } else {
            match spec_parse_ids(b, p2) {
                None => None,
                Some((rest, p3)) => Some((seq![v] + rest, p3)),
            }
        },
    }
}

/// Parse `n` file-map entries.
pub open spec fn spec_parse_map(b: Seq<u8>, pos: int, n: nat) -> Option<(Seq<MapEntryModel>, int)>
    decreases n,
{
    if n == 0 {
        Some((Seq::empty(), pos))
    } else {
        match spec_parse_u16(b, pos) {
            None => None,
            Some((dir, p2)) => match spec_parse_ids(b, p2) {
                None => None,
                Some((ids, p3)) => match spec_parse_map(b, p3, (n - 1) as nat) {
                    None => None,
                    Some((rest, p4)) => Some(
                        (seq![MapEntryModel { dir_idx: dir, chunk_ids: ids }] + rest, p4),
                    ),
                },
            },
        }
    }
}

/// Parse `n` sixteen-byte chunk records, numbering them from `next_id`.
pub open spec fn spec_parse_chunks(b: Seq<u8>, pos: int, n: nat, next_id: u16) -> Option<
    (Seq<RawChunk>, int),
>
    decreases n,
{
    if n == 0 {
        Some((Seq::empty(), pos))
    } else {
        match spec_parse_u32(b, pos) {
            None => None,
            Some((offset, p1)) => match spec_parse_u32(b, p1) {
                None => None,
                Some((clen, p2)) => match spec_parse_u32(b, p2) {
                    None => None,
                    Some((dlen, p3)) => match spec_parse_u16(b, p3) {
                        None => None,
                        Some((fl, p4)) => match spec_parse_u16(b, p4) {
                            None => None,
                            Some((fidx, p5)) => match spec_parse_chunks(
                                b,
                                p5,
                                (n - 1) as nat,
                                (next_id + 1) as u16,
                            ) {
                                None => None,
                                Some((rest, p6)) => Some(
                                    (
                                        seq![
                                            RawChunk {
                                                id: next_id,
                                                offset: offset,
                                                head_c_len: clen,
                                                d_len: dlen,
                                                flags: fl,
                                                file_idx: fidx,
                                                real_c_len: 0,
                                            },
                                        ] + rest,
                                        p6,
                                    ),
                                ),
                            },
                        },
                    },
                },
            },
        }
    }
}

/// Parse the ten-byte range-settings block, if it remains.
pub open spec fn spec_parse_range(b: Seq<u8>, pos: int) -> Option<(RangeSettings, int)> {
    if 0 <= pos && pos + 10 <= b.len() {
        Some(
            (
                RangeSettings {
                    win_size: b[pos],
                    flags: b[pos + 1],
                    offset_table_size: b[pos + 2],
                    offset_tables: b[pos + 3],
                    offset_contexts: b[pos + 4],
                    ref_length_table_size: b[pos + 5],
                    ref_length_tables: b[pos + 6],
                    ref_offset_table_size: b[pos + 7],
                    ref_offset_tables: b[pos + 8],
                    big_min_match: b[pos + 9],
                },
                pos + 10,
            ),
        )
    } else {
        None
    }
}

/// Parsed strings end no earlier than they begin and within the input.
pub proof fn lemma_parse_strings_bounds(b: Seq<u8>, pos: int, n: nat)
    requires
        0 <= pos <= b.len(),
    ensures
        pos <= spec_parse_strings(b, pos, n).1 <= b.len(),
        spec_parse_strings(b, pos, n).0.len() == n,
    decreases n,
{
    if n != 0 {
        crate::utils::lemma_find_zero(b, pos);
        let (s, p2) = spec_parse_cstr(b, pos);
        lemma_parse_strings_bounds(b, p2, (n - 1) as nat);
    }
}

/// Read `n` null-terminated strings in a row.
fn read_strings(bytes: &Vec<u8>, pos: usize, n: usize) -> (r: (Vec<String>, usize))
    requires
        pos <= bytes@.len(),
    ensures
        r.0.deep_view() == spec_parse_strings(bytes@, pos as int, n as nat).0,
        r.1 == spec_parse_strings(bytes@, pos as int, n as nat).1,
        pos <= r.1 <= bytes@.len(),
        forall|i: int, j: int|
            0 <= i < r.0.deep_view().len() && 0 <= j < r.0.deep_view()[i].len()
                ==> #[trigger] r.0.deep_view()[i][j] != '\0',
{
    let ghost b = bytes@;
    let mut out: Vec<String> = Vec::new();
    let mut cur: usize = pos;
    let mut i: usize = 0;
    while i < n
        invariant
            0 <= i <= n,
            pos <= cur <= b.len(),
            b == bytes@,
            spec_parse_strings(b, pos as int, n as nat).0 == out.deep_view()
                + spec_parse_strings(b, cur as int, (n - i) as nat).0,
            spec_parse_strings(b, pos as int, n as nat).1 == spec_parse_strings(
                b,
                cur as int,
                (n - i) as nat,
            ).1,
            forall|x: int, j: int|
                0 <= x < out.deep_view().len() && 0 <= j < out.deep_view()[x].len()
                    ==> #[trigger] out.deep_view()[x][j] != '\0',
        decreases n - i,
    {
        let ghost before = out.deep_view();
        let (s, p2) = read_null_term_string(bytes, cur);
        out.push(s);
        proof {
            assert(out.deep_view() =~= before.push(spec_parse_cstr(b, cur as int).0));
            let tail = spec_parse_strings(b, p2 as int, (n - i - 1) as nat);
            assert(spec_parse_strings(b, cur as int, (n - i) as nat).0 == seq![
                spec_parse_cstr(b, cur as int).0,
            ] + tail.0);
            assert(before + (seq![spec_parse_cstr(b, cur as int).0] + tail.0) =~= before.push(
                spec_parse_cstr(b, cur as int).0,
            ) + tail.0);
        }
        cur = p2;
        i = i + 1;
    }
    proof {
        assert(spec_parse_strings(b, cur as int, 0) == (Seq::<Seq<char>>::empty(), cur as int));
        assert(out.deep_view() + Seq::<Seq<char>>::empty() =~= out.deep_view());
    }
    (out, cur)
}

/// Read chunk ids up to and including the terminator.
fn read_chunk_ids(bytes: &Vec<u8>, pos: usize) -> (r: Result<(Vec<u16>, usize), DzipError>)
    requires
        pos <= bytes@.len(),
    ensures
        match spec_parse_ids(bytes@, pos as int) {
            Some((ids, p)) => r matches Ok(v) && v.0@ == ids && v.1 == p && pos <= p
                <= bytes@.len(),
            None => r matches Err(e) && e matches DzipError::Io(_),
        },
{
    let ghost b = bytes@;
    let n = bytes.len();
    let mut out: Vec<u16> = Vec::new();
    let mut cur: usize = pos;
    loop
        invariant
            pos <= cur <= n,
            n == b.len(),
            b == bytes@,
            spec_parse_ids(b, pos as int) == match spec_parse_ids(b, cur as int) {
                Some((ids2, p2)) => Some::<(Seq<u16>, int)>((out@ + ids2, p2)),
                None => None::<(Seq<u16>, int)>,
            },
        decreases n - cur,
    {
        if n - cur < 2 {
            assert(spec_parse_ids(b, cur as int) is None);
            return Err(
                DzipError::Io(String::from_str("unexpected end of archive header")),
            );
        }
        let v = read_u16(bytes, cur);
        if v == CHUNK_LIST_TERMINATOR {
            proof {
                assert(spec_parse_ids(b, cur as int) == Some::<(Seq<u16>, int)>(
                    (Seq::empty(), cur + 2),
                ));
                assert(out@ + Seq::<u16>::empty() =~= out@);
            }
            return Ok((out, cur + 2));
        }
        let ghost before = out@;
        out.push(v);
        proof {
            assert(out@ =~= before.push(v));
            match spec_parse_ids(b, cur + 2) {
                Some((ids3, p3)) => {
                    assert(spec_parse_ids(b, cur as int) == Some::<(Seq<u16>, int)>(
                        (seq![v] + ids3, p3),
                    ));
                    assert(before + (seq![v] + ids3) =~= before.push(v) + ids3);
                },
                None => {},
            }
        }
        cur = cur + 2;
    }
}

/// Read `n` file-map entries.
fn read_file_map(bytes: &Vec<u8>, pos: usize, n: usize) -> (r: Result<
    (Vec<FileMapEntry>, usize),
    DzipError,
>)
    requires
        pos <= bytes@.len(),
    ensures
        match spec_parse_map(bytes@, pos as int, n as nat) {
            Some((es, p)) => r matches Ok(v) && v.0@.len() == es.len() && v.1 == p && pos <= p
                <= bytes@.len() && (forall|i: int|
                0 <= i < es.len() ==> (#[trigger] v.0@[i]).id == i && v.0@[i].dir_idx
                    == es[i].dir_idx as usize && v.0@[i].chunk_ids@ == es[i].chunk_ids),
            None => r matches Err(e) && e matches DzipError::Io(_),
        },
{
    let ghost b = bytes@;
    let total = bytes.len();
    let mut out: Vec<FileMapEntry> = Vec::new();
    let mut cur: usize = pos;
    let mut i: usize = 0;
    while i < n
        invariant
            0 <= i <= n,
            pos <= cur <= total,
            total == b.len(),
            b == bytes@,
            out@.len() == i,
            match spec_parse_map(b, pos as int, n as nat) {
                Some((es, p)) => match spec_parse_map(b, cur as int, (n - i) as nat) {
                    Some((tail, pt)) => es.len() == i + tail.len() && p == pt && (forall|k: int|
                        0 <= k < i ==> (#[trigger] out@[k]).id == k && out@[k].dir_idx == es[
                            k
                        ].dir_idx as usize && out@[k].chunk_ids@ == es[k].chunk_ids) && (forall|
                        k: int,
                    |
                        0 <= k < tail.len() ==> es[i + k] == #[trigger] tail[k]),
                    None => false,
                },
                None => spec_parse_map(b, cur as int, (n - i) as nat) is None,
            },
        decreases n - i,
    {
        if total - cur < 2 {
            assert(spec_parse_u16(b, cur as int) is None);
            return Err(
                DzipError::Io(String::from_str("unexpected end of archive header")),
            );
        }
        let dir = read_u16(bytes, cur);
        let ids = match read_chunk_ids(bytes, cur + 2) {
            Ok(v) => v,
            Err(e) => {
                return Err(e);
            },
        };
        let entry = FileMapEntry { id: i, dir_idx: dir as usize, chunk_ids: ids.0 };
        let ghost m0 = MapEntryModel { dir_idx: dir, chunk_ids: entry.chunk_ids@ };
        proof {
            assert(spec_parse_u16(b, cur as int) == Some::<(u16, int)>((dir, cur + 2)));
            match spec_parse_ids(b, cur + 2) {
                Some((ids2, p3)) => {
                    match spec_parse_map(b, p3, (n - i - 1) as nat) {
                        Some((tail2, pt2)) => {
                            assert(spec_parse_map(b, cur as int, (n - i) as nat) == Some::<
                                (Seq<MapEntryModel>, int),
                            >((seq![m0] + tail2, pt2)));
                            assert((seq![m0] + tail2)[0] == m0);
                            assert(forall|k: int|
                                0 <= k < tail2.len() ==> (seq![m0] + tail2)[k + 1]
                                    == #[trigger] tail2[k]);
                        },
                        None => {},
                    }
                },
                None => {},
            }
        }
        out.push(entry);
        cur = ids.1;
        i = i + 1;
    }
    proof {
        match spec_parse_map(b, pos as int, n as nat) {
            Some((es, p)) => {
                assert(spec_parse_map(b, cur as int, 0) == Some::<(Seq<MapEntryModel>, int)>(
                    (Seq::empty(), cur as int),
                ));
            },
            None => {
                assert(spec_parse_map(b, cur as int, 0) is Some);
            },
        }
    }
    Ok((out, cur))
}

/// Read `n` sixteen-byte chunk records, numbering them from zero.
fn read_chunks(bytes: &Vec<u8>, pos: usize, n: usize) -> (r: Result<
    (Vec<RawChunk>, usize),
    DzipError,
>)
    requires
        pos <= bytes@.len(),
        n <= 0xFFFF,
    ensures
        match spec_parse_chunks(bytes@, pos as int, n as nat, 0) {
            Some((cs, p)) => r matches Ok(v) && v.0@ == cs && v.1 == p && pos <= p <= bytes@.len(),
            None => r matches Err(e) && e matches DzipError::Io(_),
        },
{
    let ghost b = bytes@;
    let mut out: Vec<RawChunk> = Vec::new();
    let mut cur: usize = pos;
    let mut i: usize = 0;
    while i < n
        invariant
            0 <= i <= n,
            n <= 0xFFFF,
            pos <= cur <= b.len(),
            b == bytes@,
            out@.len() == i,
            match spec_parse_chunks(b, pos as int, n as nat, 0) {
                Some((cs, p)) => match spec_parse_chunks(
                    b,
                    cur as int,
                    (n - i) as nat,
                    i as u16,
                ) {
                    Some((tail, pt)) => cs =~= out@ + tail && p == pt,
                    None => false,
                },
                None => spec_parse_chunks(b, cur as int, (n - i) as nat, i as u16) is None,
            },
        decreases n - i,
    {
        if bytes.len() - cur < 16 {
            proof {
                if cur + 4 <= b.len() {
                    if cur + 8 <= b.len() {
                        if cur + 12 <= b.len() {
                            if cur + 14 <= b.len() {
                                assert(spec_parse_u16(b, cur + 14) is None);
                            } else {
                                assert(spec_parse_u16(b, cur + 12) is None);
                            }
                        } else {
                            assert(spec_parse_u32(b, cur + 8) is None);
                        }
                    } else {
                        assert(spec_parse_u32(b, cur + 4) is None);
                    }
                } else {
                    assert(spec_parse_u32(b, cur as int) is None);
                }
            }
            return Err(
                DzipError::Io(String::from_str("unexpected end of archive header")),
            );
        }
        let offset = read_u32(bytes, cur);
        let clen = read_u32(bytes, cur + 4);
        let dlen = read_u32(bytes, cur + 8);
        let fl = read_u16(bytes, cur + 12);
        let fidx = read_u16(bytes, cur + 14);
        let c = RawChunk {
            id: i as u16,
            offset: offset,
            head_c_len: clen,
            d_len: dlen,
            flags: fl,
            file_idx: fidx,
            real_c_len: 0,
        };
        let ghost before = out@;
        out.push(c);
        proof {
            match spec_parse_chunks(b, cur + 16, (n - i - 1) as nat, (i + 1) as u16) {
                Some((tail2, pt2)) => {
                    assert(spec_parse_chunks(b, cur as int, (n - i) as nat, i as u16)
                        == Some::<(Seq<RawChunk>, int)>((seq![c] + tail2, pt2)));
                    assert(before + (seq![c] + tail2) =~= before.push(c) + tail2);
                },
                None => {},
            }
        }
        cur = cur + 16;
        i = i + 1;
    }
    proof {
        match spec_parse_chunks(b, pos as int, n as nat, 0) {
            Some((cs, p)) => {
                assert(spec_parse_chunks(b, cur as int, 0, i as u16) == Some::<
                    (Seq<RawChunk>, int),
                >((Seq::empty(), cur as int)));
                assert(out@ + Seq::<RawChunk>::empty() =~= out@);
            },
            None => {
                assert(spec_parse_chunks(b, cur as int, 0, i as u16) is Some);
            },
        }
    }
    Ok((out, cur))
}

/// Parsed chunk-id lists never contain the terminator value.
pub proof fn lemma_parse_ids_no_term(b: Seq<u8>, pos: int)
    ensures
        match spec_parse_ids(b, pos) {
            Some((ids, p)) => forall|k: int|
                0 <= k < ids.len() ==> #[trigger] ids[k] != CHUNK_LIST_TERMINATOR,
            None => true,
        },
    decreases b.len() - pos,
{
    match spec_parse_u16(b, pos) {
        None => {},
        Some((v, p2)) => {
            if v != CHUNK_LIST_TERMINATOR {
                lemma_parse_ids_no_term(b, p2);
                match spec_parse_ids(b, p2) {
                    Some((rest, p3)) => {
                        assert(forall|k: int|
                            0 <= k < rest.len() ==> (seq![v] + rest)[k + 1] == #[trigger] rest[k]);
                        assert forall|k: int| 0 <= k < (seq![v] + rest).len() implies #[trigger] (
                        seq![v] + rest)[k] != CHUNK_LIST_TERMINATOR by {
                            if k >= 1 {
                                assert((seq![v] + rest)[k] == rest[k - 1]);
                            }
                        }
                    },
                    None => {},
                }
            }
        },
    }
}

/// Parsed file maps carry no terminator value among their chunk ids.
pub proof fn lemma_parse_map_ids_ok(b: Seq<u8>, pos: int, n: nat)
    ensures
        match spec_parse_map(b, pos, n) {
            Some((es, p)) => es.len() == n && (forall|i: int, k: int|
                0 <= i < es.len() && 0 <= k < es[i].chunk_ids.len()
                    ==> #[trigger] es[i].chunk_ids[k] != CHUNK_LIST_TERMINATOR),
            None => true,
        },
    decreases n,
{
    if n != 0 {
        match spec_parse_u16(b, pos) {
            None => {},
            Some((dir, p2)) => {
                lemma_parse_ids_no_term(b, p2);
                match spec_parse_ids(b, p2) {
                    None => {},
                    Some((ids, p3)) => {
                        lemma_parse_map_ids_ok(b, p3, (n - 1) as nat);
                        match spec_parse_map(b, p3, (n - 1) as nat) {
                            None => {},
                            Some((rest, p4)) => {
                                let m0 = MapEntryModel { dir_idx: dir, chunk_ids: ids };
                                assert forall|i: int, k: int|
                                    0 <= i < (seq![m0] + rest).len() && 0 <= k < (seq![m0]
                                    + rest)[i].chunk_ids.len() implies #[trigger] (seq![m0]
                                    + rest)[i].chunk_ids[k] != CHUNK_LIST_TERMINATOR by {
                                    if i >= 1 {
                                        assert((seq![m0] + rest)[i] == rest[i - 1]);
                                    }
                                }
                            },
                        }
                    },
                }
            },
        }
    }
}

/// Parsed chunk tables number their records in order from `base` and
/// leave the corrected length zero.
pub proof fn lemma_parse_chunks_shape(b: Seq<u8>, pos: int, n: nat, base: u16)
    requires
        base + n <= 0x10000,
    ensures
        match spec_parse_chunks(b, pos, n, base) {
            Some((cs, p)) => cs.len() == n && (forall|i: int|
                0 <= i < cs.len() ==> (#[trigger] cs[i]).id == base + i && cs[i].real_c_len == 0),
            None => true,
        },
    decreases n,
{
    if n != 0 {
        match spec_parse_u32(b, pos) {
            None => {},
            Some((offset, p1)) => match spec_parse_u32(b, p1) {
                None => {},
                Some((clen, p2)) => match spec_parse_u32(b, p2) {
                    None => {},
                    Some((dlen, p3)) => match spec_parse_u16(b, p3) {
                        None => {},
                        Some((fl, p4)) => match spec_parse_u16(b, p4) {
                            None => {},
                            Some((fidx, p5)) => {
                                lemma_parse_chunks_shape(
                                    b,
                                    p5,
                                    (n - 1) as nat,
                                    (base + 1) as u16,
                                );
                                match spec_parse_chunks(b, p5, (n - 1) as nat, (base + 1) as u16) {
                                    None => {},
                                    Some((rest, p6)) => {
                                        let c0 = RawChunk {
                                            id: base,
                                            offset: offset,
                                            head_c_len: clen,
                                            d_len: dlen,
                                            flags: fl,
                                            file_idx: fidx,
                                            real_c_len: 0,
                                        };
                                        assert forall|i: int|
                                            0 <= i < (seq![c0] + rest).len() implies (#[trigger] (
                                        seq![c0] + rest)[i]).id == base + i && (seq![c0]
                                            + rest)[i].real_c_len == 0 by {
                                            if i >= 1 {
                                                assert((seq![c0] + rest)[i] == rest[i - 1]);
                                            }
                                        }
                                    },
                                }
                            },
                        },
                    },
                },
            },
        }
    }
}

/// Ghost mirror of a parsed header, for stating what [`ArchiveMetadata::load`]
/// returns.
pub struct MetaModel {
    pub version: u8,
    pub user_files: Seq<Seq<char>>,
    pub directories: Seq<Seq<char>>,
    pub map_entries: Seq<MapEntryModel>,
    pub raw_chunks: Seq<RawChunk>,
    pub split_file_names: Seq<Seq<char>>,
    pub range_settings: Option<RangeSettings>,
}

/// The complete parse of a header: every record in order, or `None` when
/// the magic is wrong or a record is cut short.  A stored directory count
/// of zero denotes the bare root, and the parsed directory list always
/// begins with the implicit root `"."`.
pub open spec fn spec_load(b: Seq<u8>) -> Option<(MetaModel, int)> {
    if b.len() < 9 {
        None
    } else if spec_le32(b[0], b[1], b[2], b[3]) != MAGIC {
        None
    } else {
        let nf = spec_le16(b[4], b[5]);
        let ndr = spec_le16(b[6], b[7]);
        let nd: u16 = if ndr == 0 {
            1
        } else {
            ndr
        };
        let (fs, p1) = spec_parse_strings(b, 9, nf as nat);
        let (ds, p2) = spec_parse_strings(b, p1, (nd - 1) as nat);
        match spec_parse_map(b, p2, nf as nat) {
            None => None,
            Some((map, p3)) => match spec_parse_u16(b, p3) {
                None => None,
                Some((narch, p3a)) => match spec_parse_u16(b, p3a) {
                    None => None,
                    Some((nch, p3b)) => match spec_parse_chunks(b, p3b, nch as nat, 0) {
                        None => None,
                        Some((cs, p4)) => {
                            let nsplit: u16 = if narch > 1 {
                                (narch - 1) as u16
                            } else {
                                0
                            };
                            let (sp, p5) = spec_parse_strings(b, p4, nsplit as nat);
                            if spec_has_dz(cs) {
                                match spec_parse_range(b, p5) {
                                    None => None,
                                    Some((rs, p6)) => Some(
                                        (
                                            MetaModel {
                                                version: b[8],
                                                user_files: fs,
                                                directories: seq!["."@] + ds,
                                                map_entries: map,
                                                raw_chunks: cs,
                                                split_file_names: sp,
                                                range_settings: Some(rs),
                                            },
                                            p6,
                                        ),
                                    ),
                                }
                            } else {
                                Some(
                                    (
                                        MetaModel {
                                            version: b[8],
                                            user_files: fs,
                                            directories: seq!["."@] + ds,
                                            map_entries: map,
                                            raw_chunks: cs,
                                            split_file_names: sp,
                                            range_settings: None,
                                        },
                                        p5,
                                    ),
                                )
                            }
                        },
                    },
                },
            },
        }
    }
}

/// Whether a parsed header equals a ghost header model, field by field.
pub open spec fn matches_model(out: ArchiveMetadata, mm: MetaModel) -> bool {
    &&& out.version == mm.version
    &&& out.user_files.deep_view() == mm.user_files
    &&& out.directories.deep_view() == mm.directories
    &&& out.map_entries@.len() == mm.map_entries.len()
    &&& (forall|i: int|
        0 <= i < mm.map_entries.len() ==> (#[trigger] out.map_entries@[i]).id == i
            && out.map_entries@[i].dir_idx == mm.map_entries[i].dir_idx as usize
            && out.map_entries@[i].chunk_ids@ == mm.map_entries[i].chunk_ids)
    &&& out.raw_chunks@ == mm.raw_chunks
    &&& out.split_file_names.deep_view() == mm.split_file_names
    &&& out.range_settings == mm.range_settings
}

/// The UTF-8 bytes of a NUL-free string hold no zero byte, so a zero
/// terminator after them is unambiguous.
pub proof fn lemma_encode_no_zero(s: Seq<char>)
    requires
        no_nul(s),
    ensures
        forall|j: int| 0 <= j < encode_utf8(s).len() ==> #[trigger] encode_utf8(s)[j] != 0,
    decreases s.len(),
{
    if s.len() != 0 {
        assert(forall|i: int| 0 <= i < s.drop_first().len() ==> s.drop_first()[i] == s[i + 1]);
        lemma_encode_no_zero(s.drop_first());
        let v = s[0] as u32;
        char_is_scalar(s[0]);
        assert(v != 0) by {
            vstd::utf8::char_u32_cast(s[0], v);
            if v == 0 {
                assert((0u32 as char) == s[0]);
                assert(('\0' as u32) == 0);
                vstd::utf8::char_u32_cast('\0', 0);
            }
        }
        let es = encode_scalar_nonzero(v);
        let e = encode_utf8(s);
        assert forall|j: int| 0 <= j < e.len() implies #[trigger] e[j] != 0 by {
            if j < vstd::utf8::encode_scalar(v).len() {
                assert(e[j] == vstd::utf8::encode_scalar(v)[j]);
            } else {
                assert(e[j] == encode_utf8(s.drop_first())[j - vstd::utf8::encode_scalar(
                    v,
                ).len()]);
            }
        }
    }
}

/// Every byte of a nonzero scalar's UTF-8 encoding is nonzero.
proof fn encode_scalar_nonzero(v: u32) -> (r: bool)
    requires
        v != 0,
    ensures
        forall|j: int|
            0 <= j < vstd::utf8::encode_scalar(v).len() ==> #[trigger] vstd::utf8::encode_scalar(
                v,
            )[j] != 0,
{
    if vstd::utf8::has_width_1_encoding(v) {
        assert((v & 0x7F) as u8 != 0) by (bit_vector)
            requires
                v != 0 && v < 0x80,
        ;
    } else {
        lemma_or_high_nonzero(((v >> 6) & 0x1F) as u8);
        lemma_or_high_nonzero((v & 0x3F) as u8);
        lemma_or_high_nonzero(((v >> 12) & 0x0F) as u8);
        lemma_or_high_nonzero(((v >> 6) & 0x3F) as u8);
        lemma_or_high_nonzero(((v >> 18) & 0x7) as u8);
        lemma_or_high_nonzero(((v >> 12) & 0x3F) as u8);
    }
    true
}

/// A byte with any of the UTF-8 marker bits set is nonzero.
proof fn lemma_or_high_nonzero(y: u8)
    ensures
        (0xC0u8 | y) != 0,
        (0xE0u8 | y) != 0,
        (0xF0u8 | y) != 0,
        (0x80u8 | y) != 0,
{
    assert((0xC0u8 | y) != 0 && (0xE0u8 | y) != 0 && (0xF0u8 | y) != 0 && (0x80u8 | y) != 0)
        by (bit_vector);
}

/// Parsing one stored string from its exact bytes restores it.
pub proof fn lemma_parse_cstr_exact(b: Seq<u8>, pos: int, s: Seq<char>)
    requires
        no_nul(s),
        0 <= pos,
        pos + spec_cstr_bytes(s).len() <= b.len(),
        b.subrange(pos, pos + spec_cstr_bytes(s).len() as int) == spec_cstr_bytes(s),
    ensures
        spec_parse_cstr(b, pos).0 == s,
        spec_parse_cstr(b, pos).1 == pos + spec_cstr_bytes(s).len(),
{
    let e = encode_utf8(s);
    let l = e.len() as int;
    lemma_encode_no_zero(s);
    assert forall|j: int| pos <= j < pos + l implies b[j] != 0 by {
        assert(b[j] == b.subrange(pos, pos + l + 1)[j - pos]);
        assert(spec_cstr_bytes(s)[j - pos] == e[j - pos]);
    }
    assert(b[pos + l] == spec_cstr_bytes(s)[l]);
    assert(b[pos + l] == 0);
    crate::utils::lemma_find_zero_unique(b, pos, pos + l);
    let sub = b.subrange(pos, pos + l);
    assert(sub =~= e) by {
        assert(forall|j: int|
            0 <= j < l ==> #[trigger] sub[j] == b.subrange(pos, pos + l + 1)[j]);
    }
    encode_utf8_valid_utf8(s);
    encode_utf8_decode_utf8(s);
}

/// Parsing a stored string table from its exact bytes restores it.
pub proof fn lemma_parse_strings_exact(b: Seq<u8>, pos: int, ss: Seq<Seq<char>>)
    requires
        forall|i: int| 0 <= i < ss.len() ==> no_nul(#[trigger] ss[i]),
        0 <= pos,
        pos + spec_strings_bytes(ss).len() <= b.len(),
        b.subrange(pos, pos + spec_strings_bytes(ss).len() as int) == spec_strings_bytes(ss),
    ensures
        spec_parse_strings(b, pos, ss.len()) == (ss, pos + spec_strings_bytes(ss).len() as int),
    decreases ss.len(),
{
    if ss.len() == 0 {
        assert(ss =~= Seq::<Seq<char>>::empty());
    } else {
        let s0 = ss[0];
        let c0 = spec_cstr_bytes(s0);
        let tail = ss.drop_first();
        let rest_bytes = spec_strings_bytes(tail);
        let whole = spec_strings_bytes(ss);
        assert(whole == c0 + rest_bytes);
        assert(b.subrange(pos, pos + c0.len() as int) =~= c0) by {
            assert(forall|j: int|
                0 <= j < c0.len() ==> #[trigger] b.subrange(pos, pos + c0.len() as int)[j]
                    == b.subrange(pos, pos + whole.len() as int)[j]);
        }
        lemma_parse_cstr_exact(b, pos, s0);
        let p2 = pos + c0.len() as int;
        assert(b.subrange(p2, p2 + rest_bytes.len() as int) =~= rest_bytes) by {
            assert(forall|j: int|
                0 <= j < rest_bytes.len() ==> #[trigger] b.subrange(
                    p2,
                    p2 + rest_bytes.len() as int,
                )[j] == b.subrange(pos, pos + whole.len() as int)[j + c0.len()]);
        }
        assert(forall|i: int| 0 <= i < tail.len() ==> no_nul(#[trigger] tail[i])) by {
            assert(forall|i: int| 0 <= i < tail.len() ==> tail[i] == ss[i + 1]);
        }
        lemma_parse_strings_exact(b, p2, tail);
        assert(seq![s0] + tail =~= ss);
    }
}

/// Parsing two stored bytes restores the 16-bit value.
pub proof fn lemma_parse_u16_exact(b: Seq<u8>, pos: int, v: u16)
    requires
        0 <= pos,
        pos + 2 <= b.len(),
        b.subrange(pos, pos + 2) == spec_u16_bytes(v),
    ensures
        spec_parse_u16(b, pos) == Some((v, pos + 2)),
{
    assert(b[pos] == b.subrange(pos, pos + 2)[0]);
    assert(b[pos + 1] == b.subrange(pos, pos + 2)[1]);
    crate::bytes::lemma_u16_round_trip(v);
}

/// Parsing four stored bytes restores the 32-bit value.
pub proof fn lemma_parse_u32_exact(b: Seq<u8>, pos: int, v: u32)
    requires
        0 <= pos,
        pos + 4 <= b.len(),
        b.subrange(pos, pos + 4) == spec_u32_bytes(v),
    ensures
        spec_parse_u32(b, pos) == Some((v, pos + 4)),
{
    assert(b[pos] == b.subrange(pos, pos + 4)[0]);
    assert(b[pos + 1] == b.subrange(pos, pos + 4)[1]);
    assert(b[pos + 2] == b.subrange(pos, pos + 4)[2]);
    assert(b[pos + 3] == b.subrange(pos, pos + 4)[3]);
    crate::bytes::lemma_u32_round_trip(v);
}

/// Parsing a stored chunk-id list from its exact bytes restores it.
pub proof fn lemma_parse_ids_exact(b: Seq<u8>, pos: int, ids: Seq<u16>)
    requires
        forall|k: int| 0 <= k < ids.len() ==> #[trigger] ids[k] != CHUNK_LIST_TERMINATOR,
        0 <= pos,
        pos + spec_ids_bytes(ids).len() <= b.len(),
        b.subrange(pos, pos + spec_ids_bytes(ids).len() as int) == spec_ids_bytes(ids),
    ensures
        spec_parse_ids(b, pos) == Some((ids, pos + spec_ids_bytes(ids).len() as int)),
    decreases ids.len(),
{
    let whole = spec_ids_bytes(ids);
    if ids.len() == 0 {
        lemma_parse_u16_exact(b, pos, CHUNK_LIST_TERMINATOR);
        assert(ids =~= Seq::<u16>::empty());
    } else {
        let first = spec_u16_bytes(ids[0]);
        let rest_bytes = spec_ids_bytes(ids.drop_first());
        assert(whole == first + rest_bytes);
        assert(b.subrange(pos, pos + 2) =~= first) by {
            assert(forall|j: int|
                0 <= j < 2 ==> #[trigger] b.subrange(pos, pos + 2)[j] == b.subrange(
                    pos,
                    pos + whole.len() as int,
                )[j]);
        }
        lemma_parse_u16_exact(b, pos, ids[0]);
        let p2 = pos + 2;
        assert(b.subrange(p2, p2 + rest_bytes.len() as int) =~= rest_bytes) by {
            assert(forall|j: int|
                0 <= j < rest_bytes.len() ==> #[trigger] b.subrange(
                    p2,
                    p2 + rest_bytes.len() as int,
                )[j] == b.subrange(pos, pos + whole.len() as int)[j + 2]);
        }
        assert(forall|k: int|
            0 <= k < ids.drop_first().len() ==> #[trigger] ids.drop_first()[k] == ids[k + 1]);
        lemma_parse_ids_exact(b, p2, ids.drop_first());
        assert(seq![ids[0]] + ids.drop_first() =~= ids);
    }
}

/// Parsing a stored file map from its exact bytes restores it.
pub proof fn lemma_parse_map_exact(b: Seq<u8>, pos: int, entries: Seq<FileMapEntry>)
    requires
        forall|i: int| 0 <= i < entries.len() ==> (#[trigger] entries[i]).dir_idx <= 0xFFFF,
        forall|i: int, k: int|
            0 <= i < entries.len() && 0 <= k < entries[i].chunk_ids@.len()
                ==> #[trigger] entries[i].chunk_ids@[k] != CHUNK_LIST_TERMINATOR,
        0 <= pos,
        pos + spec_map_bytes(entries).len() <= b.len(),
        b.subrange(pos, pos + spec_map_bytes(entries).len() as int) == spec_map_bytes(entries),
    ensures
        spec_parse_map(b, pos, entries.len()) matches Some(p) && p.1 == pos + spec_map_bytes(
            entries,
        ).len() && p.0.len() == entries.len() && (forall|i: int|
            0 <= i < entries.len() ==> (#[trigger] p.0[i]).dir_idx as usize == entries[i].dir_idx
                && p.0[i].chunk_ids == entries[i].chunk_ids@),
    decreases entries.len(),
{
    let whole = spec_map_bytes(entries);
    if entries.len() == 0 {
    } else {
        let e0 = entries[0];
        let ebytes = spec_map_entry_bytes(e0);
        let rest_bytes = spec_map_bytes(entries.drop_first());
        assert(whole == ebytes + rest_bytes);
        assert(b.subrange(pos, pos + ebytes.len() as int) =~= ebytes) by {
            assert(forall|j: int|
                0 <= j < ebytes.len() ==> #[trigger] b.subrange(pos, pos + ebytes.len() as int)[j]
                    == b.subrange(pos, pos + whole.len() as int)[j]);
        }
        let dbytes = spec_u16_bytes(e0.dir_idx as u16);
        let ibytes = spec_ids_bytes(e0.chunk_ids@);
        assert(ebytes == dbytes + ibytes);
        assert(b.subrange(pos, pos + 2) =~= dbytes) by {
            assert(forall|j: int|
                0 <= j < 2 ==> #[trigger] b.subrange(pos, pos + 2)[j] == b.subrange(
                    pos,
                    pos + ebytes.len() as int,
                )[j]);
        }
        lemma_parse_u16_exact(b, pos, e0.dir_idx as u16);
        assert(b.subrange(pos + 2, pos + 2 + ibytes.len() as int) =~= ibytes) by {
            assert(forall|j: int|
                0 <= j < ibytes.len() ==> #[trigger] b.subrange(
                    pos + 2,
                    pos + 2 + ibytes.len() as int,
                )[j] == b.subrange(pos, pos + ebytes.len() as int)[j + 2]);
        }
        lemma_parse_ids_exact(b, pos + 2, e0.chunk_ids@);
        let p3 = pos + ebytes.len() as int;
        assert(b.subrange(p3, p3 + rest_bytes.len() as int) =~= rest_bytes) by {
            assert(forall|j: int|
                0 <= j < rest_bytes.len() ==> #[trigger] b.subrange(
                    p3,
                    p3 + rest_bytes.len() as int,
                )[j] == b.subrange(pos, pos + whole.len() as int)[j + ebytes.len()]);
        }
        assert(forall|i: int|
            0 <= i < entries.drop_first().len() ==> #[trigger] entries.drop_first()[i] == entries[
                i + 1
            ]);
        lemma_parse_map_exact(b, p3, entries.drop_first());
        let m0 = MapEntryModel { dir_idx: e0.dir_idx as u16, chunk_ids: e0.chunk_ids@ };
        match spec_parse_map(b, p3, entries.drop_first().len()) {
            Some((rest, pr)) => {
                assert(spec_parse_map(b, pos, entries.len()) == Some::<
                    (Seq<MapEntryModel>, int),
                >((seq![m0] + rest, pr)));
                assert(forall|i: int|
                    0 <= i < rest.len() ==> (seq![m0] + rest)[i + 1] == #[trigger] rest[i]);
            },
            None => {
                assert(false);
            },
        }
    }
}

/// Parsing a stored chunk table from its exact bytes restores it, with
/// ids renumbered from `base` and corrected lengths unset.
#[verifier::rlimit(100)]
#[verifier::spinoff_prover]
pub proof fn lemma_parse_chunks_exact(b: Seq<u8>, pos: int, cs: Seq<RawChunk>, base: u16)
    requires
        0 <= pos,
        base + cs.len() <= 0x10000,
        pos + spec_chunks_bytes(cs).len() <= b.len(),
        b.subrange(pos, pos + spec_chunks_bytes(cs).len() as int) == spec_chunks_bytes(cs),
    ensures
        spec_parse_chunks(b, pos, cs.len(), base) matches Some(p) && p.1 == pos
            + spec_chunks_bytes(cs).len() && p.0.len() == cs.len() && (forall|i: int|
            0 <= i < cs.len() ==> #[trigger] p.0[i] == (RawChunk {
                id: (base + i) as u16,
                real_c_len: 0,
                ..cs[i]
            })),
    decreases cs.len(),
{
    let whole = spec_chunks_bytes(cs);
    if cs.len() == 0 {
    } else {
        let c0 = cs[0];
        let cbytes = spec_chunk_bytes(c0);
        let rest_bytes = spec_chunks_bytes(cs.drop_first());
        assert(whole == cbytes + rest_bytes);
        assert(b.subrange(pos, pos + 16) =~= cbytes) by {
            assert(forall|j: int|
                0 <= j < 16 ==> #[trigger] b.subrange(pos, pos + 16)[j] == b.subrange(
                    pos,
                    pos + whole.len() as int,
                )[j]);
        }
        assert(b.subrange(pos, pos + 4) =~= spec_u32_bytes(c0.offset)) by {
            assert(forall|j: int|
                0 <= j < 4 ==> #[trigger] b.subrange(pos, pos + 4)[j] == b.subrange(
                    pos,
                    pos + 16,
                )[j]);
        }
        assert(b.subrange(pos + 4, pos + 8) =~= spec_u32_bytes(c0.head_c_len)) by {
            assert(forall|j: int|
                0 <= j < 4 ==> #[trigger] b.subrange(pos + 4, pos + 8)[j] == b.subrange(
                    pos,
                    pos + 16,
                )[j + 4]);
        }
        assert(b.subrange(pos + 8, pos + 12) =~= spec_u32_bytes(c0.d_len)) by {
            assert(forall|j: int|
                0 <= j < 4 ==> #[trigger] b.subrange(pos + 8, pos + 12)[j] == b.subrange(
                    pos,
                    pos + 16,
                )[j + 8]);
        }
        assert(b.subrange(pos + 12, pos + 14) =~= spec_u16_bytes(c0.flags)) by {
            assert(forall|j: int|
                0 <= j < 2 ==> #[trigger] b.subrange(pos + 12, pos + 14)[j] == b.subrange(
                    pos,
                    pos + 16,
                )[j + 12]);
        }
        assert(b.subrange(pos + 14, pos + 16) =~= spec_u16_bytes(c0.file_idx)) by {
            assert(forall|j: int|
                0 <= j < 2 ==> #[trigger] b.subrange(pos + 14, pos + 16)[j] == b.subrange(
                    pos,
                    pos + 16,
                )[j + 14]);
        }
        lemma_parse_u32_exact(b, pos, c0.offset);
        lemma_parse_u32_exact(b, pos + 4, c0.head_c_len);
        lemma_parse_u32_exact(b, pos + 8, c0.d_len);
        lemma_parse_u16_exact(b, pos + 12, c0.flags);
        lemma_parse_u16_exact(b, pos + 14, c0.file_idx);
        let p2 = pos + 16;
        assert(b.subrange(p2, p2 + rest_bytes.len() as int) =~= rest_bytes) by {
            assert(forall|j: int|
                0 <= j < rest_bytes.len() ==> #[trigger] b.subrange(
                    p2,
                    p2 + rest_bytes.len() as int,
                )[j] == b.subrange(pos, pos + whole.len() as int)[j + 16]);
        }
        lemma_parse_chunks_exact(b, p2, cs.drop_first(), (base + 1) as u16);
        let h0 = RawChunk { id: base, real_c_len: 0, ..c0 };
        match spec_parse_chunks(b, p2, cs.drop_first().len(), (base + 1) as u16) {
            Some((rest, pr)) => {
                assert(spec_parse_chunks(b, pos, cs.len(), base) == Some::<(Seq<RawChunk>, int)>(
                    (seq![h0] + rest, pr),
                ));
                assert(forall|i: int|
                    0 <= i < rest.len() ==> (seq![h0] + rest)[i + 1] == #[trigger] rest[i]);
                assert(forall|i: int|
                    0 <= i < cs.drop_first().len() ==> #[trigger] cs.drop_first()[i] == cs[i
                        + 1]);
            },
            None => {
                assert(false);
            },
        }
    }
}

/// The middle of a three-part concatenation is its own subrange.
proof fn lemma_concat_extract(pre: Seq<u8>, seg: Seq<u8>, suf: Seq<u8>, b: Seq<u8>)
    requires
        b == pre + (seg + suf),
    ensures
        b.subrange(pre.len() as int, pre.len() as int + seg.len() as int) == seg,
{
    assert(b.subrange(pre.len() as int, pre.len() as int + seg.len() as int) =~= seg);
}

/// Byte offset of the string table within a serialized header.
pub open spec fn spec_hdr_o6(m: ArchiveMetadata) -> int {
    9 + spec_strings_bytes(m.user_files.deep_view()).len() as int
}

/// Byte offset of the file map within a serialized header.
pub open spec fn spec_hdr_o7(m: ArchiveMetadata) -> int {
    spec_hdr_o6(m) + spec_strings_bytes(m.directories.deep_view().drop_first()).len() as int
}

/// Byte offset of the chunk settings within a serialized header.
pub open spec fn spec_hdr_o8(m: ArchiveMetadata) -> int {
    spec_hdr_o7(m) + spec_map_bytes(m.map_entries@).len() as int
}

/// Byte offset of the chunk table within a serialized header.
pub open spec fn spec_hdr_o10(m: ArchiveMetadata) -> int {
    spec_hdr_o8(m) + 4
}

/// Byte offset of the volume list within a serialized header.
pub open spec fn spec_hdr_o11(m: ArchiveMetadata) -> int {
    spec_hdr_o10(m) + spec_chunks_bytes(m.raw_chunks@).len() as int
}

/// Byte offset of the range block within a serialized header.
pub open spec fn spec_hdr_o12(m: ArchiveMetadata) -> int {
    spec_hdr_o11(m) + spec_strings_bytes(m.split_file_names.deep_view()).len() as int
}

/// Each record of a serialized header sits at its own offset, whatever
/// follows the header.
#[verifier::rlimit(100)]
#[verifier::spinoff_prover]
proof fn lemma_header_slices(m: ArchiveMetadata, rest: Seq<u8>)
    ensures
        ({
            let b = spec_header_bytes(m) + rest;
            &&& b.subrange(0, 4) == spec_u32_bytes(MAGIC)
            &&& b.subrange(4, 6) == spec_u16_bytes(m.user_files@.len() as u16)
            &&& b.subrange(6, 8) == spec_u16_bytes(m.directories@.len() as u16)
            &&& b[8] == m.version
            &&& b.subrange(9, spec_hdr_o6(m)) == spec_strings_bytes(m.user_files.deep_view())
            &&& b.subrange(spec_hdr_o6(m), spec_hdr_o7(m)) == spec_strings_bytes(
                m.directories.deep_view().drop_first(),
            )
            &&& b.subrange(spec_hdr_o7(m), spec_hdr_o8(m)) == spec_map_bytes(m.map_entries@)
            &&& b.subrange(spec_hdr_o8(m), spec_hdr_o8(m) + 2) == spec_u16_bytes(
                (m.split_file_names@.len() + 1) as u16,
            )
            &&& b.subrange(spec_hdr_o8(m) + 2, spec_hdr_o8(m) + 4) == spec_u16_bytes(
                m.raw_chunks@.len() as u16,
            )
            &&& b.subrange(spec_hdr_o10(m), spec_hdr_o11(m)) == spec_chunks_bytes(m.raw_chunks@)
            &&& b.subrange(spec_hdr_o11(m), spec_hdr_o12(m)) == spec_strings_bytes(
                m.split_file_names.deep_view(),
            )
            &&& b.subrange(spec_hdr_o12(m), spec_header_bytes(m).len() as int) == (
            match m.range_settings {
                Some(rs) => spec_range_bytes(rs),
                None => Seq::<u8>::empty(),
            })
            &&& spec_header_bytes(m).len() == spec_hdr_o12(m) + (match m.range_settings {
                Some(rs) => 10int,
                None => 0int,
            })
        }),
{
    let nf = m.user_files@.len() as u16;
    let nd = m.directories@.len() as u16;
    let narch = (m.split_file_names@.len() + 1) as u16;
    let nch = m.raw_chunks@.len() as u16;
    let s1 = spec_u32_bytes(MAGIC);
    let s2 = spec_u16_bytes(nf);
    let s3 = spec_u16_bytes(nd);
    let s4 = seq![m.version];
    let s5 = spec_strings_bytes(m.user_files.deep_view());
    let s6 = spec_strings_bytes(m.directories.deep_view().drop_first());
    let s7 = spec_map_bytes(m.map_entries@);
    let s8 = spec_u16_bytes(narch);
    let s9 = spec_u16_bytes(nch);
    let s10 = spec_chunks_bytes(m.raw_chunks@);
    let s11 = spec_strings_bytes(m.split_file_names.deep_view());
    let s12 = match m.range_settings {
        Some(rs) => spec_range_bytes(rs),
        None => Seq::<u8>::empty(),
    };
    let hdr = spec_header_bytes(m);
    let b = hdr + rest;
    assert(hdr == s1 + s2 + s3 + s4 + s5 + s6 + s7 + s8 + s9 + s10 + s11 + s12);
    let h1 = s1;
    let h2 = h1 + s2;
    let h3 = h2 + s3;
    let h4 = h3 + s4;
    let h5 = h4 + s5;
    let h6 = h5 + s6;
    let h7 = h6 + s7;
    let h8 = h7 + s8;
    let h9 = h8 + s9;
    let h10 = h9 + s10;
    let h11 = h10 + s11;
    let t12 = rest;
    let t11 = s12 + t12;
    let t10 = s11 + t11;
    let t9 = s10 + t10;
    let t8 = s9 + t9;
    let t7 = s8 + t8;
    let t6 = s7 + t7;
    let t5 = s6 + t6;
    let t4 = s5 + t5;
    let t3 = s4 + t4;
    let t2 = s3 + t3;
    let t1 = s2 + t2;
    assert(b == h11 + t11);
    assert(b == h10 + t10) by {
        assert((h10 + s11) + t11 =~= h10 + (s11 + t11));
    }
    assert(b == h9 + t9) by {
        assert((h9 + s10) + t10 =~= h9 + (s10 + t10));
    }
    assert(b == h8 + t8) by {
        assert((h8 + s9) + t9 =~= h8 + (s9 + t9));
    }
    assert(b == h7 + t7) by {
        assert((h7 + s8) + t8 =~= h7 + (s8 + t8));
    }
    assert(b == h6 + t6) by {
        assert((h6 + s7) + t7 =~= h6 + (s7 + t7));
    }
    assert(b == h5 + t5) by {
        assert((h5 + s6) + t6 =~= h5 + (s6 + t6));
    }
    assert(b == h4 + t4) by {
        assert((h4 + s5) + t5 =~= h4 + (s5 + t5));
    }
    assert(b == h3 + t3) by {
        assert((h3 + s4) + t4 =~= h3 + (s4 + t4));
    }
    assert(b == h2 + t2) by {
        assert((h2 + s3) + t3 =~= h2 + (s3 + t3));
    }
    assert(b == h1 + t1) by {
        assert((h1 + s2) + t2 =~= h1 + (s2 + t2));
    }
    assert(b == Seq::<u8>::empty() + (s1 + t1)) by {
        assert(Seq::<u8>::empty() + (s1 + t1) =~= s1 + t1);
    }
    lemma_concat_extract(Seq::<u8>::empty(), s1, t1, b);
    lemma_concat_extract(h1, s2, t2, b);
    lemma_concat_extract(h2, s3, t3, b);
    lemma_concat_extract(h3, s4, t4, b);
    lemma_concat_extract(h4, s5, t5, b);
    lemma_concat_extract(h5, s6, t6, b);
    lemma_concat_extract(h6, s7, t7, b);
    lemma_concat_extract(h7, s8, t8, b);
    lemma_concat_extract(h8, s9, t9, b);
    lemma_concat_extract(h9, s10, t10, b);
    lemma_concat_extract(h10, s11, t11, b);
    lemma_concat_extract(h11, s12, t12, b);
    assert(h4.len() == 9);
    assert(h5.len() == spec_hdr_o6(m));
    assert(h6.len() == spec_hdr_o7(m));
    assert(h7.len() == spec_hdr_o8(m));
    assert(h9.len() == spec_hdr_o10(m));
    assert(h10.len() == spec_hdr_o11(m));
    assert(h11.len() == spec_hdr_o12(m));
    assert(b[8] == m.version) by {
        assert(b.subrange(8, 9)[0] == b[8]);
        assert(s4[0] == m.version);
    }
    match m.range_settings {
        Some(rs) => {
            assert(s12.len() == 10);
        },
        None => {},
    }
}

/// The ghost model a well-formed metadata record round-trips to: the
/// same fields, with chunks renumbered in order and corrected lengths
/// unset.
pub open spec fn meta_model_of(m: ArchiveMetadata) -> MetaModel {
    MetaModel {
        version: m.version,
        user_files: m.user_files.deep_view(),
        directories: m.directories.deep_view(),
        map_entries: Seq::new(
            m.map_entries@.len(),
            |i: int|
                MapEntryModel {
                    dir_idx: m.map_entries@[i].dir_idx as u16,
                    chunk_ids: m.map_entries@[i].chunk_ids@,
                },
        ),
        raw_chunks: Seq::new(
            m.raw_chunks@.len(),
            |i: int| RawChunk { id: i as u16, real_c_len: 0, ..m.raw_chunks@[i] },
        ),
        split_file_names: m.split_file_names.deep_view(),
        range_settings: m.range_settings,
    }
}

/// Round trip at the model level: parsing the serialized bytes of any
/// well-formed metadata record, with anything at all appended after the
/// header, restores the record exactly (chunks renumbered in order, their
/// corrected lengths unset) and consumes exactly the header.
#[verifier::rlimit(100)]
#[verifier::spinoff_prover]
pub proof fn lemma_header_round_trip(m: ArchiveMetadata, rest: Seq<u8>)
    requires
        wf_metadata(m),
    ensures
        spec_load(spec_header_bytes(m) + rest) == Some(
            (meta_model_of(m), spec_header_bytes(m).len() as int),
        ),
{
    let uf = m.user_files.deep_view();
    let dirs1 = m.directories.deep_view().drop_first();
    let map = m.map_entries@;
    let cs = m.raw_chunks@;
    let splits = m.split_file_names.deep_view();
    let nf = m.user_files@.len() as u16;
    let nd = m.directories@.len() as u16;
    let narch = (m.split_file_names@.len() + 1) as u16;
    let nch = m.raw_chunks@.len() as u16;
    let s1 = spec_u32_bytes(MAGIC);
    let s2 = spec_u16_bytes(nf);
    let s3 = spec_u16_bytes(nd);
    let s4 = seq![m.version];
    let s5 = spec_strings_bytes(uf);
    let s6 = spec_strings_bytes(dirs1);
    let s7 = spec_map_bytes(map);
    let s8 = spec_u16_bytes(narch);
    let s9 = spec_u16_bytes(nch);
    let s10 = spec_chunks_bytes(cs);
    let s11 = spec_strings_bytes(splits);
    let s12 = match m.range_settings {
        Some(rs) => spec_range_bytes(rs),
        None => Seq::<u8>::empty(),
    };
    let hdr = spec_header_bytes(m);
    let b = hdr + rest;
    lemma_header_slices(m, rest);
    let o5 = 9int;
    let o6 = spec_hdr_o6(m);
    let o7 = spec_hdr_o7(m);
    let o8 = spec_hdr_o8(m);
    let o10 = spec_hdr_o10(m);
    let o11 = spec_hdr_o11(m);
    let o12 = spec_hdr_o12(m);
    let hlen = hdr.len() as int;
    lemma_parse_u32_exact(b, 0, MAGIC);
    crate::bytes::lemma_u32_round_trip(MAGIC);
    lemma_parse_u16_exact(b, 4, nf);
    lemma_parse_u16_exact(b, 6, nd);
    crate::bytes::lemma_u16_round_trip(nf);
    crate::bytes::lemma_u16_round_trip(nd);
    assert(spec_le16(b[4], b[5]) == nf);
    assert(spec_le16(b[6], b[7]) == nd);
    assert(nd >= 1);
    assert forall|i: int| 0 <= i < uf.len() implies no_nul(#[trigger] uf[i]) by {
        assert(uf[i] == m.user_files@[i]@);
    }
    lemma_parse_strings_exact(b, o5, uf);
    assert forall|i: int| 0 <= i < dirs1.len() implies no_nul(#[trigger] dirs1[i]) by {
        assert(dirs1[i] == m.directories@[i + 1]@);
    }
    assert(dirs1.len() == nd - 1);
    lemma_parse_strings_exact(b, o6, dirs1);
    lemma_parse_map_exact(b, o7, map);
    lemma_parse_u16_exact(b, o8, narch);
    lemma_parse_u16_exact(b, o8 + 2, nch);
    lemma_parse_chunks_exact(b, o10, cs, 0);
    assert(splits.len() == (if narch > 1 {
        (narch - 1) as u16
    } else {
        0u16
    }) as int);
    assert forall|i: int| 0 <= i < splits.len() implies no_nul(#[trigger] splits[i]) by {
        assert(splits[i] == m.split_file_names@[i]@);
    }
    lemma_parse_strings_exact(b, o11, splits);
    let parsed_chunks = spec_parse_chunks(b, o10, nch as nat, 0)->Some_0.0;
    assert(spec_has_dz(parsed_chunks) <==> spec_has_dz(cs)) by {
        if spec_has_dz(parsed_chunks) {
            let w = choose|k: int|
                0 <= k < parsed_chunks.len() && #[trigger] parsed_chunks[k].flags & CHUNK_DZ != 0;
            assert(cs[w].flags & CHUNK_DZ != 0);
        }
        if spec_has_dz(cs) {
            let w = choose|k: int| 0 <= k < cs.len() && #[trigger] cs[k].flags & CHUNK_DZ != 0;
            assert(parsed_chunks[w].flags & CHUNK_DZ != 0);
        }
    }
    match m.range_settings {
        Some(rs) => {
            assert(b[o12] == s12[0]);
            assert(b[o12 + 1] == s12[1]);
            assert(b[o12 + 2] == s12[2]);
            assert(b[o12 + 3] == s12[3]);
            assert(b[o12 + 4] == s12[4]);
            assert(b[o12 + 5] == s12[5]);
            assert(b[o12 + 6] == s12[6]);
            assert(b[o12 + 7] == s12[7]);
            assert(b[o12 + 8] == s12[8]);
            assert(b[o12 + 9] == s12[9]);
            assert(spec_parse_range(b, o12) == Some((rs, o12 + 10)));
        },
        None => {},
    }
    match spec_load(b) {
        Some((mm, ml)) => {
            assert(ml == hlen);
            assert(mm.version == m.version);
            assert(mm.user_files == uf);
            assert(mm.directories =~= m.directories.deep_view()) by {
                assert(m.directories.deep_view()[0] == m.directories@[0]@);
                assert(m.directories@[0]@ == "."@);
                assert(forall|i: int|
                    0 <= i < dirs1.len() ==> #[trigger] dirs1[i] == m.directories.deep_view()[i
                        + 1]);
            }
            assert(mm.map_entries =~= meta_model_of(m).map_entries) by {
                assert forall|i: int| 0 <= i < map.len() implies #[trigger] mm.map_entries[i]
                    == meta_model_of(m).map_entries[i] by {
                    assert(mm.map_entries[i].dir_idx as usize == map[i].dir_idx);
                    assert(mm.map_entries[i].chunk_ids == map[i].chunk_ids@);
                }
            }
            assert(mm.raw_chunks =~= meta_model_of(m).raw_chunks) by {
                assert forall|i: int| 0 <= i < cs.len() implies #[trigger] mm.raw_chunks[i]
                    == meta_model_of(m).raw_chunks[i] by {
                    assert(mm.raw_chunks[i] == (RawChunk {
                        id: (0 + i) as u16,
                        real_c_len: 0,
                        ..cs[i]
                    }));
                }
            }
            assert(mm.split_file_names == splits);
            assert(mm.range_settings == m.range_settings);
            assert(mm =~~= meta_model_of(m)) by {
                assert(mm.user_files =~= meta_model_of(m).user_files);
            }
            assert(mm == meta_model_of(m));
        },
        None => {
            assert(false);
        },
    }
}

/// Round trip for an archive built by the writer: the main volume of a
/// well-formed record, which starts with that record's header bytes,
/// parses back to the record's model.
pub proof fn lemma_pack_load_round_trip(m: ArchiveMetadata, vol0: Seq<u8>)
    requires
        wf_metadata(m),
        vol0.len() >= spec_header_bytes(m).len(),
        vol0.subrange(0, spec_header_bytes(m).len() as int) == spec_header_bytes(m),
    ensures
        spec_load(vol0) == Some((meta_model_of(m), spec_header_bytes(m).len() as int)),
{
    let hdr = spec_header_bytes(m);
    let rest = vol0.skip(hdr.len() as int);
    assert(vol0 =~= hdr + rest);
    lemma_header_round_trip(m, rest);
}

impl ArchiveMetadata {
    /// Parse a whole header from the bytes of volume zero.  A wrong magic
    /// number is rejected with the value found; a header cut short is an
    /// input error.  A stored directory count of zero denotes the bare
    /// root.  On success the result is well-formed, records the input
    /// length, and numbers chunks and map entries in order with corrected
    /// lengths still unset.
    #[verifier::rlimit(100)]
    #[verifier::spinoff_prover]
    pub fn load(bytes: &Vec<u8>) -> (r: Result<ArchiveMetadata, DzipError>)
        ensures
            bytes@.len() < 4 ==> r matches Err(DzipError::Io(_)),
            bytes@.len() >= 4 && spec_le32(bytes@[0], bytes@[1], bytes@[2], bytes@[3]) != MAGIC
                ==> (r matches Err(DzipError::InvalidMagic(v)) && v == spec_le32(
                bytes@[0],
                bytes@[1],
                bytes@[2],
                bytes@[3],
            )),
            bytes@.len() >= 4 && spec_le32(bytes@[0], bytes@[1], bytes@[2], bytes@[3]) == MAGIC
                && r is Err ==> r matches Err(DzipError::Io(_)),
            bytes@.len() < 9 ==> r is Err,
            match spec_load(bytes@) {
                Some((mm, hlen)) => r matches Ok(out) && matches_model(out, mm),
                None => r is Err,
            },
            match r {
                Ok(out) => {
                    &&& wf_metadata(out)
                    &&& out.main_file_len == bytes@.len()
                    &&& (forall|i: int|
                        0 <= i < out.raw_chunks@.len() ==> (#[trigger] out.raw_chunks@[
                            i
                        ]).real_c_len == 0)
                    &&& out.version == bytes@[8]
                    &&& out.user_files@.len() == spec_le16(bytes@[4], bytes@[5])
                    &&& out.directories@.len() == (if spec_le16(bytes@[6], bytes@[7]) == 0 {
                        1int
                    } else {
                        spec_le16(bytes@[6], bytes@[7]) as int
                    })
                },
                Err(_) => true,
            },
    {
        let total = bytes.len();
        if total < 4 {
            return Err(DzipError::Io(String::from_str("unexpected end of archive header")));
        }
        let magic = read_u32(bytes, 0);
        if magic != MAGIC {
            return Err(DzipError::InvalidMagic(magic));
        }
        if total < 9 {
            return Err(DzipError::Io(String::from_str("unexpected end of archive header")));
        }
        let num_files = read_u16(bytes, 4);
        let num_dirs_raw = read_u16(bytes, 6);
        let num_dirs: u16 = if num_dirs_raw == 0 {
            1
        } else {
            num_dirs_raw
        };
        let version = bytes[8];
        let (user_files, p1) = read_strings(bytes, 9, num_files as usize);
        let (dir_names, p2) = read_strings(bytes, p1, (num_dirs - 1) as usize);
        let mut directories: Vec<String> = Vec::new();
        directories.push(String::from_str("."));
        let mut di: usize = 0;
        while di < dir_names.len()
            invariant
                di <= dir_names@.len(),
                directories@.len() == 1 + di,
                directories@[0]@ == "."@,
                forall|k: int|
                    0 <= k < di ==> #[trigger] directories@[k + 1]@ == dir_names@[k]@,
                forall|k: int, j: int|
                    0 <= k < dir_names.deep_view().len() && 0 <= j < dir_names.deep_view()[k].len()
                        ==> #[trigger] dir_names.deep_view()[k][j] != '\0',
                dir_names.deep_view() == spec_parse_strings(
                    bytes@,
                    p1 as int,
                    (num_dirs - 1) as nat,
                ).0,
            decreases dir_names@.len() - di,
        {
            directories.push(dir_names[di].clone());
            di = di + 1;
        }
        let map = match read_file_map(bytes, p2, num_files as usize) {
            Ok(v) => v,
            Err(e) => {
                return Err(e);
            },
        };
        let p3 = map.1;
        if total - p3 < 4 {
            return Err(DzipError::Io(String::from_str("unexpected end of archive header")));
        }
        let num_arch_files = read_u16(bytes, p3);
        let num_chunks = read_u16(bytes, p3 + 2);
        let chunks = match read_chunks(bytes, p3 + 4, num_chunks as usize) {
            Ok(v) => v,
            Err(e) => {
                return Err(e);
            },
        };
        let p4 = chunks.1;
        let nsplit: usize = if num_arch_files > 1 {
            (num_arch_files - 1) as usize
        } else {
            0
        };
        let (split_file_names, p5) = read_strings(bytes, p4, nsplit);
        proof {
            lemma_parse_strings_bounds(bytes@, 9, num_files as nat);
            lemma_parse_strings_bounds(bytes@, p1 as int, (num_dirs - 1) as nat);
            lemma_parse_strings_bounds(bytes@, p4 as int, nsplit as nat);
            lemma_parse_chunks_shape(bytes@, p3 + 4, num_chunks as nat, 0);
            lemma_parse_map_ids_ok(bytes@, p2 as int, num_files as nat);
        }
        let mut has_dz = false;
        let mut ci: usize = 0;
        while ci < chunks.0.len()
            invariant
                ci <= chunks.0@.len(),
                has_dz == spec_has_dz(chunks.0@.take(ci as int)),
            decreases chunks.0@.len() - ci,
        {
            if chunks.0[ci].flags & CHUNK_DZ != 0 {
                proof {
                    assert(chunks.0@.take(ci + 1 as int)[ci as int].flags & CHUNK_DZ != 0);
                }
                has_dz = true;
            } else {
                proof {
                    assert forall|k: int|
                        0 <= k < ci + 1 && #[trigger] chunks.0@.take(ci + 1 as int)[k].flags
                            & CHUNK_DZ != 0 implies 0 <= k < ci && chunks.0@.take(ci as int)[
                        k
                    ].flags & CHUNK_DZ != 0 by {
                        assert(chunks.0@.take(ci + 1 as int)[k] == chunks.0@[k]);
                    }
                }
            }
            ci = ci + 1;
        }
        proof {
            assert(chunks.0@.take(chunks.0@.len() as int) =~= chunks.0@);
        }
        let range_settings = if has_dz {
            if total - p5 < 10 {
                return Err(
                    DzipError::Io(String::from_str("unexpected end of archive header")),
                );
            }
            Some(
                RangeSettings {
                    win_size: bytes[p5],
                    flags: bytes[p5 + 1],
                    offset_table_size: bytes[p5 + 2],
                    offset_tables: bytes[p5 + 3],
                    offset_contexts: bytes[p5 + 4],
                    ref_length_table_size: bytes[p5 + 5],
                    ref_length_tables: bytes[p5 + 6],
                    ref_offset_table_size: bytes[p5 + 7],
                    ref_offset_tables: bytes[p5 + 8],
                    big_min_match: bytes[p5 + 9],
                },
            )
        } else {
            None
        };
        let out = ArchiveMetadata {
            version: version,
            user_files: user_files,
            directories: directories,
            map_entries: map.0,
            raw_chunks: chunks.0,
            split_file_names: split_file_names,
            range_settings: range_settings,
            main_file_len: total as u64,
        };
        proof {
            let b = bytes@;
            let nf = spec_le16(b[4], b[5]);
            let ndr = spec_le16(b[6], b[7]);
            let nd: u16 = if ndr == 0 {
                1
            } else {
                ndr
            };
            assert(nf == num_files && nd == num_dirs);
            let fs_p = spec_parse_strings(b, 9, nf as nat);
            assert(fs_p.0 == user_files.deep_view() && fs_p.1 == p1 as int);
            let ds_p = spec_parse_strings(b, p1 as int, (nd - 1) as nat);
            assert(ds_p.0 == dir_names.deep_view() && ds_p.1 == p2 as int);
            let ds = ds_p.0;
            assert(out.directories.deep_view().len() == 1 + ds.len());
            assert forall|i: int| 0 <= i < out.directories.deep_view().len() implies out
                .directories.deep_view()[i] == (seq!["."@] + ds)[i] by {
                assert(out.directories.deep_view()[i] == out.directories@[i]@);
                if i == 0 {
                    assert(out.directories@[0]@ == "."@);
                } else {
                    assert(out.directories@[(i - 1) + 1]@ == dir_names@[i - 1]@);
                    assert(dir_names.deep_view()[i - 1] == dir_names@[i - 1]@);
                    assert((seq!["."@] + ds)[i] == ds[i - 1]);
                }
            }
            assert(out.directories.deep_view() =~= seq!["."@] + ds);
            match spec_load(bytes@) {
                Some((mm, hlen)) => {
                    assert(mm.directories == seq!["."@] + ds);
                    assert(matches_model(out, mm));
                },
                None => {
                    assert(false);
                },
            }
            assert(wf_metadata(out)) by {
                assert(out.directories@[0]@ == "."@);
                assert(out.user_files@.len() == num_files as int);
                assert(out.map_entries@.len() == num_files as int);
                assert(forall|i: int|
                    0 <= i < out.directories@.len() - 1 ==> #[trigger] out.directories@[i + 1]@
                        == dir_names@[i]@);
                assert forall|i: int| 1 <= i < out.directories@.len() implies no_nul(
                    #[trigger] out.directories@[i]@,
                ) by {
                    assert(out.directories@[(i - 1) + 1]@ == dir_names@[i - 1]@);
                    assert(dir_names.deep_view()[i - 1] == dir_names@[i - 1]@);
                }
                assert forall|i: int| 0 <= i < out.user_files@.len() implies no_nul(
                    #[trigger] out.user_files@[i]@,
                ) by {
                    assert(user_files.deep_view()[i] == out.user_files@[i]@);
                }
                assert forall|i: int| 0 <= i < out.split_file_names@.len() implies no_nul(
                    #[trigger] out.split_file_names@[i]@,
                ) by {
                    assert(split_file_names.deep_view()[i] == out.split_file_names@[i]@);
                }
            }
        }
        Ok(out)
    }
}

/// Append the wire form of one string table.
fn push_strings(out: &mut Vec<u8>, ss: &Vec<String>, from: usize)
    requires
        from <= ss@.len(),
    ensures
        final(out)@ == old(out)@ + spec_strings_bytes(ss.deep_view().skip(from as int)),
{
    let ghost base = out@;
    let ghost tail = ss.deep_view().skip(from as int);
    let mut i: usize = from;
    proof {
        assert(ss.deep_view().skip(from as int).take(0) =~= Seq::<Seq<char>>::empty());
        assert(base + spec_strings_bytes(Seq::<Seq<char>>::empty()) =~= base);
    }
    while i < ss.len()
        invariant
            from <= i <= ss@.len(),
            tail == ss.deep_view().skip(from as int),
            out@ == base + spec_strings_bytes(tail.take(i - from)),
        decreases ss@.len() - i,
    {
        let ghost before = out@;
        let sbytes = ss[i].as_str().as_bytes_vec();
        out.extend_from_slice(sbytes.as_slice());
        out.push(0u8);
        proof {
            assert(out@ =~= before + spec_cstr_bytes(ss.deep_view()[i as int]));
            assert(tail.take(i - from).len() == i - from);
            lemma_strings_bytes_push(tail.take(i - from), tail[i - from]);
            assert(tail.take(i - from).push(tail[i - from]) =~= tail.take(i + 1 - from));
            assert(tail[i - from] == ss.deep_view()[i as int]);
        }
        i = i + 1;
    }
    proof {
        assert(tail.take(ss@.len() - from) =~= tail);
    }
}

/// Serialize a header to its exact wire bytes.
#[verifier::rlimit(60)]
#[verifier::spinoff_prover]
pub fn write_header(m: &ArchiveMetadata) -> (r: Vec<u8>)
    requires
        wf_metadata(*m),
    ensures
        r@ == spec_header_bytes(*m),
{
    let mut out: Vec<u8> = Vec::new();
    push_u32(&mut out, MAGIC);
    push_u16(&mut out, m.user_files.len() as u16);
    push_u16(&mut out, m.directories.len() as u16);
    out.push(m.version);
    let ghost p0 = out@;
    push_strings(&mut out, &m.user_files, 0);
    proof {
        assert(m.user_files.deep_view().skip(0) =~= m.user_files.deep_view());
    }
    push_strings(&mut out, &m.directories, 1);
    proof {
        assert(m.directories.deep_view().skip(1) =~= m.directories.deep_view().drop_first());
    }
    let ghost p1 = out@;
    // file map
    let ghost entries = m.map_entries@;
    let mut i: usize = 0;
    proof {
        assert(entries.take(0) =~= Seq::<FileMapEntry>::empty());
        assert(p1 + spec_map_bytes(Seq::<FileMapEntry>::empty()) =~= p1);
    }
    while i < m.map_entries.len()
        invariant
            i <= entries.len(),
            entries == m.map_entries@,
            wf_metadata(*m),
            out@ == p1 + spec_map_bytes(entries.take(i as int)),
        decreases entries.len() - i,
    {
        let ghost before = out@;
        let entry = &m.map_entries[i];
        push_u16(&mut out, entry.dir_idx as u16);
        let ghost mid = out@;
        let mut j: usize = 0;
        proof {
            assert(entry.chunk_ids@.take(0) =~= Seq::<u16>::empty());
        }
        while j < entry.chunk_ids.len()
            invariant
                j <= entry.chunk_ids@.len(),
                out@ == mid + spec_ids_prefix_bytes(entry.chunk_ids@.take(j as int)),
            decreases entry.chunk_ids@.len() - j,
        {
            push_u16(&mut out, entry.chunk_ids[j]);
            proof {
                lemma_ids_prefix_push(entry.chunk_ids@.take(j as int), entry.chunk_ids@[j as int]);
                assert(entry.chunk_ids@.take(j as int).push(entry.chunk_ids@[j as int])
                    =~= entry.chunk_ids@.take(j + 1 as int));
            }
            j = j + 1;
        }
        push_u16(&mut out, CHUNK_LIST_TERMINATOR);
        proof {
            assert(entry.chunk_ids@.take(entry.chunk_ids@.len() as int) =~= entry.chunk_ids@);
            lemma_ids_prefix_full(entry.chunk_ids@);
            assert(out@ =~= before + spec_map_entry_bytes(*entry));
            lemma_map_bytes_push(entries.take(i as int), entries[i as int]);
            assert(entries.take(i as int).push(entries[i as int]) =~= entries.take(i + 1 as int));
        }
        i = i + 1;
    }
    proof {
        assert(entries.take(entries.len() as int) =~= entries);
    }
    push_u16(&mut out, (m.split_file_names.len() + 1) as u16);
    push_u16(&mut out, m.raw_chunks.len() as u16);
    let ghost p2 = out@;
    // chunk table
    let ghost chunks = m.raw_chunks@;
    let mut k: usize = 0;
    proof {
        assert(chunks.take(0) =~= Seq::<RawChunk>::empty());
        assert(p2 + spec_chunks_bytes(Seq::<RawChunk>::empty()) =~= p2);
    }
    while k < m.raw_chunks.len()
        invariant
            k <= chunks.len(),
            chunks == m.raw_chunks@,
            out@ == p2 + spec_chunks_bytes(chunks.take(k as int)),
        decreases chunks.len() - k,
    {
        let ghost before = out@;
        let c = &m.raw_chunks[k];
        push_u32(&mut out, c.offset);
        push_u32(&mut out, c.head_c_len);
        push_u32(&mut out, c.d_len);
        push_u16(&mut out, c.flags);
        push_u16(&mut out, c.file_idx);
        proof {
            assert(out@ =~= before + spec_chunk_bytes(chunks[k as int]));
            lemma_chunks_bytes_push(chunks.take(k as int), chunks[k as int]);
            assert(chunks.take(k as int).push(chunks[k as int]) =~= chunks.take(k + 1 as int));
        }
        k = k + 1;
    }
    proof {
        assert(chunks.take(chunks.len() as int) =~= chunks);
    }
    push_strings(&mut out, &m.split_file_names, 0);
    proof {
        assert(m.split_file_names.deep_view().skip(0) =~= m.split_file_names.deep_view());
    }
    let ghost p3 = out@;
    match &m.range_settings {
        Some(rs) => {
            out.push(rs.win_size);
            out.push(rs.flags);
            out.push(rs.offset_table_size);
            out.push(rs.offset_tables);
            out.push(rs.offset_contexts);
            out.push(rs.ref_length_table_size);
            out.push(rs.ref_length_tables);
            out.push(rs.ref_offset_table_size);
            out.push(rs.ref_offset_tables);
            out.push(rs.big_min_match);
            proof {
                assert(out@ =~= p3 + spec_range_bytes(m.range_settings->0));
            }
        },
        None => {
            proof {
                assert(out@ =~= p3 + Seq::<u8>::empty());
            }
        },
    }
    proof {
        assert(out@ =~= spec_header_bytes(*m));
    }
    out
}

/// The wire bytes of the ids written so far, terminator not yet included.
pub open spec fn spec_ids_prefix_bytes(ids: Seq<u16>) -> Seq<u8>
    decreases ids.len(),
{
    if ids.len() == 0 {
        Seq::empty()
    } else {
        spec_u16_bytes(ids[0]) + spec_ids_prefix_bytes(ids.drop_first())
    }
}

/// Appending an id extends the prefix bytes at the end.
pub proof fn lemma_ids_prefix_push(ids: Seq<u16>, x: u16)
    ensures
        spec_ids_prefix_bytes(ids.push(x)) == spec_ids_prefix_bytes(ids) + spec_u16_bytes(x),
    decreases ids.len(),
{
    if ids.len() == 0 {
        assert(ids.push(x)[0] == x);
        assert(ids.push(x).drop_first() =~= Seq::<u16>::empty());
        assert(spec_ids_prefix_bytes(Seq::<u16>::empty()) == Seq::<u8>::empty());
        assert(spec_ids_prefix_bytes(ids.push(x)) =~= spec_u16_bytes(x));
        assert(spec_ids_prefix_bytes(ids) + spec_u16_bytes(x) =~= spec_u16_bytes(x));
    } else {
        lemma_ids_prefix_push(ids.drop_first(), x);
        assert(ids.push(x)[0] == ids[0]);
        assert(ids.push(x).drop_first() =~= ids.drop_first().push(x));
        assert(spec_u16_bytes(ids[0]) + (spec_ids_prefix_bytes(ids.drop_first())
            + spec_u16_bytes(x)) =~= (spec_u16_bytes(ids[0]) + spec_ids_prefix_bytes(
            ids.drop_first(),
        )) + spec_u16_bytes(x));
    }
}

/// The full id-list bytes are the prefix bytes plus the terminator.
pub proof fn lemma_ids_prefix_full(ids: Seq<u16>)
    ensures
        spec_ids_bytes(ids) == spec_ids_prefix_bytes(ids) + spec_u16_bytes(CHUNK_LIST_TERMINATOR),
    decreases ids.len(),
{
    if ids.len() == 0 {
        assert(spec_ids_bytes(ids) =~= spec_ids_prefix_bytes(ids) + spec_u16_bytes(
            CHUNK_LIST_TERMINATOR,
        ));
    } else {
        lemma_ids_prefix_full(ids.drop_first());
        assert(spec_u16_bytes(ids[0]) + (spec_ids_prefix_bytes(ids.drop_first()) + spec_u16_bytes(
            CHUNK_LIST_TERMINATOR,
        )) =~= (spec_u16_bytes(ids[0]) + spec_ids_prefix_bytes(ids.drop_first()))
            + spec_u16_bytes(CHUNK_LIST_TERMINATOR));
    }
}

} // verus!
