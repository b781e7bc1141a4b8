use vstd::prelude::*;
use vstd::string::StringExecFns;
use vstd::string::StrSliceExecFns;
use vstd::slice::slice_subrange;
use crate::error::DzipError;
use crate::path::{spec_split, spec_scan, spec_join, slash_sep, PathFault, split_components,
    scan_components, join_components};

verus! {

/// What `String::from_utf8_lossy` returns for the given bytes: valid
/// UTF-8 sequences decode exactly and invalid ones become replacement
/// characters, so the result depends on the bytes alone.
pub uninterp spec fn lossy_utf8(bytes: Seq<u8>) -> Seq<char>;

/// Relies on `String::from_utf8_lossy`: the result is a function of the
/// bytes alone; valid UTF-8 input decodes exactly, and invalid sequences
/// become replacement characters, so a NUL character can only come from a
/// zero byte.
#[verifier::external_body]
pub fn bytes_to_string_lossy(bytes: &[u8]) -> (r: String)
    ensures
        r@ == lossy_utf8(bytes@),
        vstd::utf8::valid_utf8(bytes@) ==> r@ == vstd::utf8::decode_utf8(bytes@),
        (forall|i: int| 0 <= i < bytes@.len() ==> bytes@[i] != 0) ==> (forall|j: int|
            0 <= j < r@.len() ==> r@[j] != '\0'),
{
    String::from_utf8_lossy(bytes).into_owned()
}

/// What one null-terminated string at `pos` parses to: the characters of
/// the bytes before the first zero, decoded exactly when they are valid
/// UTF-8 and with replacement otherwise, and the position just past the
/// terminator (or the end, when no terminator remains).
pub open spec fn spec_parse_cstr(b: Seq<u8>, pos: int) -> (Seq<char>, int) {
    let k = spec_find_zero(b, pos);
    let sub = b.subrange(pos, k);
    let s = if vstd::utf8::valid_utf8(sub) {
        vstd::utf8::decode_utf8(sub)
    } else {
        lossy_utf8(sub)
    };
    (
        s,
        if k < b.len() {
            k + 1
        } else {
            b.len() as int
        },
    )
}

/// The first position at or after `pos` holding a zero byte, or the
/// length when none remains.
pub open spec fn spec_find_zero(b: Seq<u8>, pos: int) -> int
    decreases b.len() - pos,
{
    if pos < 0 || pos >= b.len() {
        b.len() as int
    } else if b[pos] == 0 {
        pos
    } else {
        spec_find_zero(b, pos + 1)
    }
}

/// The zero finder stays within bounds and is exact: nothing before it is
/// zero, and it points at a zero unless it is the length.
pub proof fn lemma_find_zero(b: Seq<u8>, pos: int)
    requires
        0 <= pos <= b.len(),
    ensures
        pos <= spec_find_zero(b, pos) <= b.len(),
        forall|j: int| pos <= j < spec_find_zero(b, pos) ==> b[j] != 0,
        spec_find_zero(b, pos) < b.len() ==> b[spec_find_zero(b, pos)] == 0,
    decreases b.len() - pos,
{
    if pos < b.len() && b[pos] != 0 {
        lemma_find_zero(b, pos + 1);
    }
}

/// Scan forward for the first zero byte at or after `pos`.
fn find_zero(bytes: &Vec<u8>, pos: usize) -> (k: usize)
    requires
        pos <= bytes@.len(),
    ensures
        pos <= k <= bytes@.len(),
        forall|j: int| pos <= j < k ==> bytes@[j] != 0,
        k < bytes@.len() ==> bytes@[k as int] == 0,
{
    let n = bytes.len();
    let mut k: usize = pos;
    while k < n
        invariant
            pos <= k <= n,
            n == bytes@.len(),
            forall|j: int| pos <= j < k ==> bytes@[j] != 0,
        decreases n - k,
    {
        if bytes[k] == 0 {
            return k;
        }
        k = k + 1;
    }
    k
}

/// Read a null-terminated string starting at `pos`: the bytes up to the
/// first zero, decoded with lossy UTF-8 replacement, and the position
/// just past the terminator (or the end, when no terminator remains).
pub fn read_null_term_string(bytes: &Vec<u8>, pos: usize) -> (r: (String, usize))
    requires
        pos <= bytes@.len(),
    ensures
        r.0@ == spec_parse_cstr(bytes@, pos as int).0,
        r.1 == spec_parse_cstr(bytes@, pos as int).1,
        pos <= r.1 <= bytes@.len(),
        forall|j: int| 0 <= j < r.0@.len() ==> r.0@[j] != '\0',
{
    proof {
        lemma_find_zero(bytes@, pos as int);
    }
    let n = bytes.len();
    let k = find_zero(bytes, pos);
    let sub = slice_subrange(bytes.as_slice(), pos, k);
    let s = bytes_to_string_lossy(sub);
    proof {
        assert(k as int == spec_find_zero(bytes@, pos as int)) by {
            lemma_find_zero_unique(bytes@, pos as int, k as int);
        }
        assert(forall|i: int| 0 <= i < sub@.len() ==> sub@[i] != 0);
    }
    if k < n {
        (s, k + 1)
    } else {
        (s, k)
    }
}

/// A position with no zero before it, holding zero or at the end, is the
/// zero finder's answer.
pub proof fn lemma_find_zero_unique(b: Seq<u8>, pos: int, k: int)
    requires
        0 <= pos <= k <= b.len(),
        forall|j: int| pos <= j < k ==> b[j] != 0,
        k < b.len() ==> b[k] == 0,
    ensures
        spec_find_zero(b, pos) == k,
    decreases k - pos,
{
    if pos < k {
        lemma_find_zero_unique(b, pos + 1, k);
    }
}

/// A base directory joined to a relative path with the host separator;
/// an empty base leaves the path alone.
pub open spec fn spec_join_base(base: Seq<char>, p: Seq<char>) -> Seq<char> {
    if base.len() == 0 {
        p
    } else {
        base + seq!['/'] + p
    }
}

/// Sanitize a relative path and join it beneath `base`: plain components
/// are kept, root and `.` segments dropped, and any `..` rejected, so the
/// result cannot escape `base`.
pub fn sanitize_path(base: &str, rel_path_str: &str) -> (r: Result<String, DzipError>)
    ensures
        match spec_scan(spec_split(rel_path_str@, |c: char| slash_sep(c)), false) {
            Ok(cs) => (cs.len() == 0 ==> (r matches Err(DzipError::InvalidInput(m)) && m@
                == "Invalid empty path resolution"@)) && (cs.len() > 0 ==> (r matches Ok(p) && p@
                == spec_join_base(base@, spec_join(cs, '/')))),
            Err(PathFault::Traversal) => r matches Err(DzipError::InvalidInput(m)) && m@
                == "Security Error: Directory traversal (..) detected in path"@,
            Err(PathFault::BadPrefix) => false,
        },
{
    let comps = split_components(rel_path_str, false);
    match scan_components(&comps, false) {
        Ok(kept) => {
            if kept.len() == 0 {
                Err(
                    DzipError::InvalidInput(
                        String::from_str("Invalid empty path resolution"),
                    ),
                )
            } else {
                let joined = join_components(&kept, false);
                if base.unicode_len() == 0 {
                    Ok(joined)
                } else {
                    let mut out = String::from_str(base);
                    out.append("/");
                    out.append(joined.as_str());
                    proof {
                        reveal_strlit("/");
                        assert(out@ =~= spec_join_base(base@, joined@));
                    }
                    Ok(out)
                }
            }
        },
        Err(PathFault::Traversal) => Err(
            DzipError::InvalidInput(
                String::from_str("Security Error: Directory traversal (..) detected in path"),
            ),
        ),
        Err(PathFault::BadPrefix) => {
            proof {
                crate::path::lemma_scan_no_colon_fault(comps.deep_view());
            }
            Err(
                DzipError::InvalidInput(
                    String::from_str("Invalid empty path resolution"),
                ),
            )
        },
    }
}

} // verus!
