use vstd::prelude::*;
use crate::model::RawChunk;

verus! {

/// Whether chunk `j` comes after chunk `i` in the same volume when the
/// volume's chunks are ordered by offset, with ties broken by position
/// (the order a stable sort on offset produces).
pub open spec fn spec_lex_after(cs: Seq<RawChunk>, i: int, j: int) -> bool {
    cs[j].file_idx == cs[i].file_idx && (cs[j].offset > cs[i].offset || (cs[j].offset == cs[
        i
    ].offset && j > i))
}

/// Fold over positions `j..` keeping the smallest offset of any chunk
/// after `i` in its volume's order.
pub open spec fn spec_next_offset_scan(cs: Seq<RawChunk>, i: int, j: int, best: Option<u32>) -> Option<
    u32,
>
    decreases cs.len() - j,
{
    if j < 0 || j >= cs.len() {
        best
    } else {
        let better = if j != i && spec_lex_after(cs, i, j) && (best is None || cs[j].offset
            < best->0) {
            Some(cs[j].offset)
        } else {
            best
        };
        spec_next_offset_scan(cs, i, j + 1, better)
    }
}

/// The offset where chunk `i`'s stored bytes must end: the offset of the
/// next chunk in the same volume ordered by offset (ties by position), or
/// the volume's length truncated to 32 bits when it is the last.
pub open spec fn spec_next_offset(cs: Seq<RawChunk>, lens: Seq<u64>, i: int) -> u32 {
    match spec_next_offset_scan(cs, i, 0, None) {
        Some(o) => o,
        None => lens[cs[i].file_idx as int] as u32,
    }
}

/// Whether chunk `i` shares its offset with another chunk of the same
/// volume.  Such a pair is ill-formed; the format tolerates it by
/// leaving the header's recorded lengths in force.
pub open spec fn spec_offset_tie(cs: Seq<RawChunk>, i: int) -> bool {
    exists|j: int|
        0 <= j < cs.len() && j != i && (#[trigger] cs[j]).file_idx == cs[i].file_idx && cs[j].offset
            == cs[i].offset
}

/// The corrected compressed length of chunk `i`: the gap up to
/// [`spec_next_offset`]; the header's recorded value when the chunk
/// shares its offset with another chunk of its volume, or when the
/// volume ends before the chunk begins.
pub open spec fn spec_corrected_len(cs: Seq<RawChunk>, lens: Seq<u64>, i: int) -> u32 {
    if spec_offset_tie(cs, i) {
        cs[i].head_c_len
    } else {
        let nx = spec_next_offset(cs, lens, i);
        if nx >= cs[i].offset {
            (nx - cs[i].offset) as u32
        } else {
            cs[i].head_c_len
        }
    }
}

/// What the scan computes: the smallest offset among `best` and the
/// later-ordered chunks of the same volume from position `j` on, and
/// nothing when there are none.
pub proof fn lemma_next_offset_scan_min(cs: Seq<RawChunk>, i: int, j: int, best: Option<u32>)
    requires
        0 <= j <= cs.len(),
    ensures
        match spec_next_offset_scan(cs, i, j, best) {
            Some(o) => (best == Some(o) || exists|k: int|
                j <= k < cs.len() && spec_lex_after(cs, i, k) && (#[trigger] cs[k]).offset == o) && (
            match best {
                Some(b) => o <= b,
                None => true,
            }) && (forall|k: int|
                j <= k < cs.len() && spec_lex_after(cs, i, k) ==> o <= (#[trigger] cs[k]).offset),
            None => best is None && (forall|k: int|
                j <= k < cs.len() ==> !(#[trigger] spec_lex_after(cs, i, k))),
        },
    decreases cs.len() - j,
{
    if j < cs.len() {
        let better = if j != i && spec_lex_after(cs, i, j) && (best is None || cs[j].offset
            < best->0) {
            Some(cs[j].offset)
        } else {
            best
        };
        lemma_next_offset_scan_min(cs, i, j + 1, better);
        assert(spec_next_offset_scan(cs, i, j, best) == spec_next_offset_scan(
            cs,
            i,
            j + 1,
            better,
        ));
        assert(!spec_lex_after(cs, i, i));
    }
}

/// Recompute every chunk's on-disk compressed length from its neighbours'
/// offsets: within each volume the chunks are ordered by offset and each
/// chunk's bytes run up to the next chunk's offset, or to the end of the
/// volume for the last.  A chunk that shares its offset with another
/// chunk of its volume, or that begins past the end of its volume, keeps
/// the header's recorded length.  `volume_lens[k]` is the byte length of
/// volume `k`, the main file first.
pub fn correct_chunk_sizes(chunks: &Vec<RawChunk>, volume_lens: &Vec<u64>) -> (r: Vec<RawChunk>)
    requires
        forall|i: int|
            0 <= i < chunks@.len() ==> (#[trigger] chunks@[i].file_idx as int)
                < volume_lens@.len(),
    ensures
        r@.len() == chunks@.len(),
        forall|i: int|
            0 <= i < chunks@.len() ==> {
                let c = #[trigger] chunks@[i];
                r@[i] == (RawChunk {
                    real_c_len: spec_corrected_len(chunks@, volume_lens@, i),
                    ..c
                })
            },
{
    let ghost cs = chunks@;
    let ghost lens = volume_lens@;
    let n = chunks.len();
    let mut out: Vec<RawChunk> = Vec::new();
    let mut i: usize = 0;
    while i < n
        invariant
            i <= n,
            n == cs.len(),
            cs == chunks@,
            lens == volume_lens@,
            forall|k: int|
                0 <= k < cs.len() ==> (#[trigger] cs[k].file_idx as int) < lens.len(),
            out@.len() == i,
            forall|k: int|
                0 <= k < i ==> #[trigger] out@[k] == (RawChunk {
                    real_c_len: spec_corrected_len(cs, lens, k),
                    ..cs[k]
                }),
        decreases n - i,
    {
        let mut best: Option<u32> = None;
        let mut tie = false;
        let mut j: usize = 0;
        while j < n
            invariant
                j <= n,
                i < n,
                n == cs.len(),
                cs == chunks@,
                spec_next_offset_scan(cs, i as int, 0, None) == spec_next_offset_scan(
                    cs,
                    i as int,
                    j as int,
                    best,
                ),
                tie == exists|j2: int|
                    0 <= j2 < j && j2 != i as int && (#[trigger] cs[j2]).file_idx == cs[
                        i as int
                    ].file_idx && cs[j2].offset == cs[i as int].offset,
            decreases n - j,
        {
            let better = j != i && chunks[j].file_idx == chunks[i].file_idx && (chunks[j].offset
                > chunks[i].offset || (chunks[j].offset == chunks[i].offset && j > i)) && (
            match best {
                None => true,
                Some(b) => chunks[j].offset < b,
            });
            if better {
                best = Some(chunks[j].offset);
            }
            if j != i && chunks[j].file_idx == chunks[i].file_idx && chunks[j].offset == chunks[
                i
            ].offset {
                proof {
                    assert(cs[j as int].file_idx == cs[i as int].file_idx && cs[j as int].offset
                        == cs[i as int].offset);
                }
                tie = true;
            } else {
                proof {
                    if exists|j2: int|
                        0 <= j2 < j + 1 && j2 != i as int && (#[trigger] cs[j2]).file_idx == cs[
                            i as int
                        ].file_idx && cs[j2].offset == cs[i as int].offset {
                        let w = choose|j2: int|
                            0 <= j2 < j + 1 && j2 != i as int && (#[trigger] cs[j2]).file_idx
                                == cs[i as int].file_idx && cs[j2].offset == cs[i as int].offset;
                        assert(w != j as int);
                    }
                }
            }
            j = j + 1;
        }
        proof {
            assert(tie == spec_offset_tie(cs, i as int));
        }
        let next_off: u32 = match best {
            Some(o) => o,
            None => {
                let vl = volume_lens[chunks[i].file_idx as usize];
                vl as u32
            },
        };
        let c = chunks[i];
        let fixed_len: u32 = if tie {
            c.head_c_len
        } else if next_off >= c.offset {
            next_off - c.offset
        } else {
            c.head_c_len
        };
        out.push(
            RawChunk {
                id: c.id,
                offset: c.offset,
                head_c_len: c.head_c_len,
                d_len: c.d_len,
                flags: c.flags,
                file_idx: c.file_idx,
                real_c_len: fixed_len,
            },
        );
        i = i + 1;
    }
    out
}

} // verus!
