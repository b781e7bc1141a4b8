use vstd::prelude::*;
use vstd::string::StrSliceExecFns;
use vstd::string::StringExecFns;
use crate::error::DzipError;

verus! {

/// Separator set used when reading paths that may mix conventions: both
/// the archive's backslash and the forward slash split components.
pub open spec fn any_sep(c: char) -> bool {
    c == '/' || c == '\\'
}

/// Separator set of host-style paths: the forward slash alone.
pub open spec fn slash_sep(c: char) -> bool {
    c == '/'
}

/// Split a character sequence on the given separator set.  Splitting the
/// empty sequence yields one empty component, and every separator ends a
/// component, so `"a/"` yields `["a", ""]`.
pub open spec fn spec_split(s: Seq<char>, sep: spec_fn(char) -> bool) -> Seq<Seq<char>>
    decreases s.len(),
{
    if s.len() == 0 {
        seq![Seq::<char>::empty()]
    } else if sep(s[0]) {
        seq![Seq::<char>::empty()] + spec_split(s.drop_first(), sep)
    } else {
        let rest = spec_split(s.drop_first(), sep);
        seq![seq![s[0]] + rest[0]] + rest.drop_first()
    }
}

/// Splitting always yields at least one component.
pub proof fn lemma_split_nonempty(s: Seq<char>, sep: spec_fn(char) -> bool)
    ensures
        spec_split(s, sep).len() >= 1,
    decreases s.len(),
{
    if s.len() != 0 {
        lemma_split_nonempty(s.drop_first(), sep);
    }
}

/// The first segment of a split: if no separator occurs before `k` and
/// `k` is either a separator position or the end, the split starts with
/// `s[..k]` and continues with the split of what follows the separator.
pub proof fn lemma_split_first_segment(s: Seq<char>, sep: spec_fn(char) -> bool, k: int)
    requires
        0 <= k <= s.len(),
        forall|j: int| 0 <= j < k ==> !sep(s[j]),
        k < s.len() ==> sep(s[k]),
    ensures
        k == s.len() ==> spec_split(s, sep) == seq![s],
        k < s.len() ==> spec_split(s, sep) == seq![s.take(k)] + spec_split(
            s.skip(k + 1),
            sep,
        ),
    decreases s.len(),
{
    if s.len() == 0 {
        assert(spec_split(s, sep) =~~= seq![s]);
    } else if k == 0 {
        if k < s.len() {
            assert(s.take(0) =~= Seq::<char>::empty());
            assert(s.skip(1) =~= s.drop_first());
            assert(spec_split(s, sep) =~= seq![s.take(0)] + spec_split(s.skip(1), sep));
        }
    } else {
        let d = s.drop_first();
        lemma_split_first_segment(d, sep, k - 1);
        lemma_split_nonempty(d, sep);
        let rest = spec_split(d, sep);
        if k == s.len() {
            assert(d.len() == k - 1);
            assert(rest == seq![d]);
            assert(seq![s[0]] + d =~= s);
            assert(spec_split(s, sep) =~~= seq![s]);
        } else {
            assert(rest == seq![d.take(k - 1)] + spec_split(d.skip(k), sep));
            assert(rest[0] == d.take(k - 1));
            assert(seq![s[0]] + d.take(k - 1) =~= s.take(k));
            assert(rest.drop_first() =~= spec_split(d.skip(k), sep));
            assert(d.skip(k) =~= s.skip(k + 1));
            assert(spec_split(s, sep) =~= seq![s.take(k)] + spec_split(s.skip(k + 1), sep));
        }
    }
}

/// No component produced by a split contains a separator character.
pub proof fn lemma_split_components_clean(s: Seq<char>, sep: spec_fn(char) -> bool)
    ensures
        forall|i: int, j: int|
            0 <= i < spec_split(s, sep).len() && 0 <= j < spec_split(s, sep)[i].len() ==> !sep(
                spec_split(s, sep)[i][j],
            ),
    decreases s.len(),
{
    if s.len() == 0 {
    } else if sep(s[0]) {
        lemma_split_components_clean(s.drop_first(), sep);
        assert forall|i: int, j: int|
            0 <= i < spec_split(s, sep).len() && 0 <= j < spec_split(s, sep)[i].len() implies !sep(
            spec_split(s, sep)[i][j],
        ) by {
            let rest = spec_split(s.drop_first(), sep);
            if i >= 1 {
                assert(spec_split(s, sep)[i] == rest[i - 1]);
            }
        }
    } else {
        lemma_split_components_clean(s.drop_first(), sep);
        lemma_split_nonempty(s.drop_first(), sep);
        assert forall|i: int, j: int|
            0 <= i < spec_split(s, sep).len() && 0 <= j < spec_split(s, sep)[i].len() implies !sep(
            spec_split(s, sep)[i][j],
        ) by {
            let rest = spec_split(s.drop_first(), sep);
            if i == 0 {
                assert(spec_split(s, sep)[0] == seq![s[0]] + rest[0]);
                if j >= 1 {
                    assert((seq![s[0]] + rest[0])[j] == rest[0][j - 1]);
                }
            } else {
                assert(spec_split(s, sep)[i] == rest.drop_first()[i - 1]);
                assert(rest.drop_first()[i - 1] == rest[i]);
            }
        }
    }
}

/// Join components with the given separator character; the inverse shape
/// of [`spec_split`].
pub open spec fn spec_join(cs: Seq<Seq<char>>, sep: char) -> Seq<char>
    decreases cs.len(),
{
    if cs.len() == 0 {
        Seq::empty()
    } else if cs.len() == 1 {
        cs[0]
    } else {
        cs[0] + seq![sep] + spec_join(cs.drop_first(), sep)
    }
}

/// Appending one more component to a nonempty list extends the join by a
/// separator and that component.
pub proof fn lemma_join_push(cs: Seq<Seq<char>>, sep: char, c: Seq<char>)
    requires
        cs.len() >= 1,
    ensures
        spec_join(cs.push(c), sep) == spec_join(cs, sep) + seq![sep] + c,
    decreases cs.len(),
{
    if cs.len() == 1 {
        assert(cs.push(c).len() == 2);
        assert(cs.push(c)[0] == cs[0]);
        assert(cs.push(c).drop_first() =~= seq![c]);
        assert(spec_join(cs.push(c).drop_first(), sep) == c);
        assert(spec_join(cs.push(c), sep) == cs[0] + seq![sep] + c);
    } else {
        assert(cs.push(c)[0] == cs[0]);
        lemma_join_push(cs.drop_first(), sep, c);
        assert(cs.push(c).drop_first() =~= cs.drop_first().push(c));
        assert(spec_join(cs, sep) + seq![sep] + c =~= cs[0] + seq![sep] + (spec_join(
            cs.drop_first(),
            sep,
        ) + seq![sep] + c));
    }
}

/// Find the next separator at or after `from`; returns the string length
/// when none remains.
fn find_sep(s: &str, from: usize, both: bool) -> (e: usize)
    requires
        from <= s@.len(),
    ensures
        from <= e <= s@.len(),
        forall|j: int|
            from <= j < e ==> !(if both {
                any_sep(s@[j])
            } else {
                slash_sep(s@[j])
            }),
        e < s@.len() ==> (if both {
            any_sep(s@[e as int])
        } else {
            slash_sep(s@[e as int])
        }),
{
    let n = s.unicode_len();
    let mut e: usize = from;
    while e < n
        invariant
            from <= e <= n,
            n == s@.len(),
            forall|j: int|
                from <= j < e ==> !(if both {
                    any_sep(s@[j])
                } else {
                    slash_sep(s@[j])
                }),
        decreases n - e,
    {
        let c = s.get_char(e);
        let hit = if both {
            c == '/' || c == '\\'
        } else {
            c == '/'
        };
        if hit {
            return e;
        }
        e = e + 1;
    }
    e
}

/// Exec split: cut `s` into its components, on both separators or on the
/// forward slash alone.
pub fn split_components(s: &str, both: bool) -> (r: Vec<String>)
    ensures
        both ==> r.deep_view() == spec_split(s@, |c: char| any_sep(c)),
        !both ==> r.deep_view() == spec_split(s@, |c: char| slash_sep(c)),
{
    let ghost sep: spec_fn(char) -> bool = if both {
        |c: char| any_sep(c)
    } else {
        |c: char| slash_sep(c)
    };
    let n = s.unicode_len();
    let mut r: Vec<String> = Vec::new();
    let mut pos: usize = 0;
    proof {
        assert(s@.skip(0) =~= s@);
        assert(r.deep_view() =~= Seq::<Seq<char>>::empty());
        assert(Seq::<Seq<char>>::empty() + spec_split(s@, sep) =~= spec_split(s@, sep));
    }
    loop
        invariant
            pos <= n,
            n == s@.len(),
            both ==> sep == (|c: char| any_sep(c)),
            !both ==> sep == (|c: char| slash_sep(c)),
            spec_split(s@, sep) == r.deep_view() + spec_split(s@.skip(pos as int), sep),
        decreases n - pos + 1,
    {
        let e = find_sep(s, pos, both);
        let seg = s.substring_char(pos, e);
        let seg_string = String::from_str(seg);
        proof {
            lemma_split_first_segment(s@.skip(pos as int), sep, e - pos);
            assert(s@.skip(pos as int).take(e - pos) =~= s@.subrange(pos as int, e as int));
        }
        r.push(seg_string);
        if e == n {
            proof {
                assert(s@.skip(pos as int).len() == n - pos);
                assert(spec_split(s@.skip(pos as int), sep) == seq![s@.skip(pos as int)]);
                assert(s@.skip(pos as int) =~= s@.subrange(pos as int, e as int));
                assert(r.deep_view() =~= r.deep_view().drop_last().push(s@.subrange(
                    pos as int,
                    e as int,
                )));
                assert(r.deep_view().drop_last() + spec_split(s@.skip(pos as int), sep)
                    =~= r.deep_view());
            }
            return r;
        }
        proof {
            assert(sep(s@.skip(pos as int)[e - pos]));
            assert(spec_split(s@.skip(pos as int), sep) == seq![s@.subrange(pos as int, e as int)]
                + spec_split(s@.skip(pos as int).skip(e - pos + 1), sep));
            assert(s@.skip(pos as int).skip(e - pos + 1) =~= s@.skip(e + 1 as int));
            assert(r.deep_view() =~= r.deep_view().drop_last().push(s@.subrange(
                pos as int,
                e as int,
            )));
            assert(r.deep_view().drop_last() + spec_split(s@.skip(pos as int), sep) =~= r.deep_view()
                + spec_split(s@.skip(e + 1 as int), sep));
        }
        pos = e + 1;
    }
}

/// Ways a path component can be rejected.
#[derive(Clone, Copy, Debug, PartialEq, Eq, Structural)]
pub enum PathFault {
    /// A `..` component was found.
    Traversal,
    /// A component contains `:`, the shape of a drive prefix.
    BadPrefix,
}

/// A component survives normalization when it is neither empty nor `.`.
pub open spec fn spec_kept(c: Seq<char>) -> bool {
    c.len() > 0 && c != "."@
}

/// Whether a component contains a colon anywhere.
pub open spec fn spec_has_colon(c: Seq<char>) -> bool {
    exists|i: int| 0 <= i < c.len() && c[i] == ':'
}

/// Walk the components in order: drop empty and `.` components, fail on
/// the first `..` (and, when `check_colon` holds, on the first component
/// containing `:`), and keep the rest.
pub open spec fn spec_scan(cs: Seq<Seq<char>>, check_colon: bool) -> Result<
    Seq<Seq<char>>,
    PathFault,
>
    decreases cs.len(),
{
    if cs.len() == 0 {
        Ok(Seq::empty())
    } else {
        let c = cs[0];
        if !spec_kept(c) {
            spec_scan(cs.drop_first(), check_colon)
        } else if c == ".."@ {
            Err(PathFault::Traversal)
        } else if check_colon && spec_has_colon(c) {
            Err(PathFault::BadPrefix)
        } else {
            match spec_scan(cs.drop_first(), check_colon) {
                Ok(rest) => Ok(seq![c] + rest),
                Err(e) => Err(e),
            }
        }
    }
}

/// Whether `c` holds a colon, with the exact position forgotten.
fn has_colon(c: &String) -> (r: bool)
    ensures
        r == spec_has_colon(c@),
{
    let q = c.as_str();
    let n = q.unicode_len();
    let mut i: usize = 0;
    while i < n
        invariant
            i <= n,
            n == q@.len(),
            q@ == c@,
            forall|j: int| 0 <= j < i ==> c@[j] != ':',
        decreases n - i,
    {
        if q.get_char(i) == ':' {
            return true;
        }
        i = i + 1;
    }
    false
}

/// Filter and validate components, in order, as [`spec_scan`] does.
pub fn scan_components(comps: &Vec<String>, check_colon: bool) -> (r: Result<Vec<String>, PathFault>)
    ensures
        match r {
            Ok(v) => spec_scan(comps.deep_view(), check_colon) == Ok::<_, PathFault>(v.deep_view()),
            Err(f) => spec_scan(comps.deep_view(), check_colon) == Err::<Seq<Seq<char>>, _>(f),
        },
{
    let ghost cs = comps.deep_view();
    let mut kept: Vec<String> = Vec::new();
    let mut i: usize = 0;
    proof {
        assert(cs.skip(0) =~= cs);
    }
    while i < comps.len()
        invariant
            i <= comps.len(),
            cs == comps.deep_view(),
            match spec_scan(cs.skip(i as int), check_colon) {
                Ok(rest) => spec_scan(cs, check_colon) == Ok::<_, PathFault>(
                    kept.deep_view() + rest,
                ),
                Err(e) => spec_scan(cs, check_colon) == Err::<Seq<Seq<char>>, PathFault>(e),
            },
        decreases comps.len() - i,
    {
        let c = &comps[i];
        proof {
            assert(cs.skip(i as int).len() == cs.len() - i);
            assert(cs.skip(i as int)[0] == cs[i as int]);
            assert(cs.skip(i as int).drop_first() =~= cs.skip(i + 1 as int));
        }
        let keep = c.as_str().unicode_len() != 0 && !(*c == String::from_str("."));
        proof {
            reveal_strlit(".");
            if c@.len() == 0 {
                assert(!spec_kept(cs[i as int]));
            }
        }
        if keep {
            if *c == String::from_str("..") {
                proof {
                    reveal_strlit("..");
                }
                return Err(PathFault::Traversal);
            }
            proof {
                reveal_strlit("..");
            }
            if check_colon && has_colon(c) {
                return Err(PathFault::BadPrefix);
            }
            let ghost before = kept.deep_view();
            kept.push(c.clone());
            proof {
                assert(kept.deep_view() =~= before.push(cs[i as int]));
                match spec_scan(cs.skip(i + 1 as int), check_colon) {
                    Ok(rest) => {
                        assert(spec_scan(cs.skip(i as int), check_colon) == Ok::<_, PathFault>(
                            seq![cs[i as int]] + rest,
                        ));
                        assert(before + (seq![cs[i as int]] + rest) =~= before.push(cs[i as int])
                            + rest);
                    },
                    Err(_) => {},
                }
            }
        }
        i = i + 1;
    }
    proof {
        assert(cs.skip(cs.len() as int).len() == 0);
        assert(kept.deep_view() + Seq::<Seq<char>>::empty() =~= kept.deep_view());
    }
    Ok(kept)
}

/// Join the components with `/` or, when `use_backslash` holds, with the
/// archive separator.
pub fn join_components(comps: &Vec<String>, use_backslash: bool) -> (r: String)
    ensures
        r@ == spec_join(
            comps.deep_view(),
            if use_backslash {
                '\\'
            } else {
                '/'
            },
        ),
{
    let ghost sep: char = if use_backslash {
        '\\'
    } else {
        '/'
    };
    proof {
        reveal_strlit("/");
        reveal_strlit("\\");
    }
    let mut r = String::new();
    if comps.len() == 0 {
        return r;
    }
    r = comps[0].clone();
    let mut i: usize = 1;
    while i < comps.len()
        invariant
            1 <= i <= comps.len(),
            r@ == spec_join(comps.deep_view().take(i as int), sep),
            use_backslash ==> sep == '\\',
            !use_backslash ==> sep == '/',
        decreases comps.len() - i,
    {
        if use_backslash {
            r.append("\\");
        } else {
            r.append("/");
        }
        proof {
            reveal_strlit("/");
            reveal_strlit("\\");
        }
        r.append(comps[i].as_str());
        proof {
            let pre = comps.deep_view().take(i as int);
            lemma_join_push(pre, sep, comps.deep_view()[i as int]);
            assert(pre.push(comps.deep_view()[i as int]) =~= comps.deep_view().take(i + 1 as int));
        }
        i = i + 1;
    }
    proof {
        assert(comps.deep_view().take(comps.len() as int) =~= comps.deep_view());
    }
    r
}

/// Archive form of a path: every `/` replaced by `\`, all else kept.
pub open spec fn spec_archive_of(s: Seq<char>) -> Seq<char> {
    Seq::new(
        s.len(),
        |i: int|
            if s[i] == '/' {
                '\\'
            } else {
                s[i]
            },
    )
}

/// Joining a split with a replacement separator rewrites exactly the
/// separator positions and keeps every other character.
pub proof fn lemma_join_split_replace(s: Seq<char>, sep: spec_fn(char) -> bool, q: char)
    ensures
        spec_join(spec_split(s, sep), q) == Seq::new(
            s.len(),
            |i: int|
                if sep(s[i]) {
                    q
                } else {
                    s[i]
                },
        ),
    decreases s.len(),
{
    let target = Seq::new(
        s.len(),
        |i: int|
            if sep(s[i]) {
                q
            } else {
                s[i]
            },
    );
    if s.len() == 0 {
        assert(spec_join(spec_split(s, sep), q) =~= target);
    } else {
        let d = s.drop_first();
        lemma_join_split_replace(d, sep, q);
        lemma_split_nonempty(d, sep);
        let rest = spec_split(d, sep);
        let dtarget = Seq::new(
            d.len(),
            |i: int|
                if sep(d[i]) {
                    q
                } else {
                    d[i]
                },
        );
        if sep(s[0]) {
            assert(spec_split(s, sep) == seq![Seq::<char>::empty()] + rest);
            assert(spec_split(s, sep).len() == 1 + rest.len());
            assert(spec_split(s, sep)[0] == Seq::<char>::empty());
            assert(spec_split(s, sep).drop_first() =~= rest);
            assert(spec_join(spec_split(s, sep), q) == Seq::<char>::empty() + seq![q] + spec_join(
                rest,
                q,
            ));
            assert(spec_join(spec_split(s, sep), q) =~= target);
        } else {
            if rest.len() == 1 {
                assert(spec_split(s, sep) =~= seq![seq![s[0]] + rest[0]]);
                assert(spec_join(spec_split(s, sep), q) == seq![s[0]] + rest[0]);
                assert(spec_join(rest, q) == rest[0]);
                assert(spec_join(spec_split(s, sep), q) =~= target);
            } else {
                assert(spec_split(s, sep)[0] == seq![s[0]] + rest[0]);
                assert(spec_split(s, sep).drop_first() =~= rest.drop_first());
                assert(spec_split(s, sep).len() == rest.len());
                assert(spec_join(spec_split(s, sep), q) == (seq![s[0]] + rest[0]) + seq![q]
                    + spec_join(rest.drop_first(), q));
                assert(spec_join(rest, q) == rest[0] + seq![q] + spec_join(rest.drop_first(), q));
                assert(spec_join(spec_split(s, sep), q) =~= seq![s[0]] + spec_join(rest, q));
                assert(seq![s[0]] + dtarget =~= target);
            }
        }
    }
}

/// Convert a path to the archive format: backslash separators, case kept.
pub fn to_archive_format(path: &str) -> (r: String)
    ensures
        r@ == spec_archive_of(path@),
{
    let comps = split_components(path, false);
    let r = join_components(&comps, true);
    proof {
        lemma_join_split_replace(path@, |c: char| slash_sep(c), '\\');
        assert(spec_archive_of(path@) =~= Seq::new(
            path@.len(),
            |i: int|
                if slash_sep(path@[i]) {
                    '\\'
                } else {
                    path@[i]
                },
        ));
    }
    r
}

/// Split on both separator styles, drop empty and `.` components, reject
/// `..` and components holding `:`, and join with the host separator; an
/// empty result becomes `.`.
pub fn resolve_relative_path(path_str: &str) -> (r: Result<String, DzipError>)
    ensures
        match spec_scan(spec_split(path_str@, |c: char| any_sep(c)), true) {
            Ok(cs) => r matches Ok(p) && (cs.len() == 0 ==> p@ == "."@) && (cs.len() > 0 ==> p@
                == spec_join(cs, '/')),
            Err(PathFault::Traversal) => r matches Err(DzipError::InvalidInput(m)) && m@
                == "Invalid path component '..' (Zip Slip prevention)"@,
            Err(PathFault::BadPrefix) => r matches Err(DzipError::InvalidInput(m)) && m@
                == "Invalid path component containing ':'"@,
        },
{
    let comps = split_components(path_str, true);
    match scan_components(&comps, true) {
        Ok(kept) => {
            if kept.len() == 0 {
                Ok(String::from_str("."))
            } else {
                Ok(join_components(&kept, false))
            }
        },
        Err(PathFault::Traversal) => Err(
            DzipError::InvalidInput(
                String::from_str("Invalid path component '..' (Zip Slip prevention)"),
            ),
        ),
        Err(PathFault::BadPrefix) => Err(
            DzipError::InvalidInput(String::from_str("Invalid path component containing ':'")),
        ),
    }
}

/// Convert a path from the archive format (any separator style) to a safe
/// host-relative path.
pub fn from_archive_format(path_str: &str) -> (r: Result<String, DzipError>)
    ensures
        match spec_scan(spec_split(path_str@, |c: char| any_sep(c)), true) {
            Ok(cs) => r matches Ok(p) && (cs.len() == 0 ==> p@ == "."@) && (cs.len() > 0 ==> p@
                == spec_join(cs, '/')),
            Err(PathFault::Traversal) => r matches Err(DzipError::InvalidInput(m)) && m@
                == "Invalid path component '..' (Zip Slip prevention)"@,
            Err(PathFault::BadPrefix) => r matches Err(DzipError::InvalidInput(m)) && m@
                == "Invalid path component containing ':'"@,
        },
{
    resolve_relative_path(path_str)
}

/// Scanning without the colon check can only fault on traversal.
pub proof fn lemma_scan_no_colon_fault(cs: Seq<Seq<char>>)
    ensures
        spec_scan(cs, false) != Err::<Seq<Seq<char>>, PathFault>(PathFault::BadPrefix),
    decreases cs.len(),
{
    if cs.len() != 0 {
        lemma_scan_no_colon_fault(cs.drop_first());
    }
}

/// Sanitize a host-style path for extraction: drop root and `.` segments,
/// reject `..`, and fail when nothing remains, so the result is a safe
/// relative path.
pub fn sanitize_path(path: &str) -> (r: Result<String, DzipError>)
    ensures
        match spec_scan(spec_split(path@, |c: char| slash_sep(c)), false) {
            Ok(cs) => (cs.len() == 0 ==> (r matches Err(DzipError::InvalidInput(m)) && m@
                == "Empty path after sanitization"@)) && (cs.len() > 0 ==> (r matches Ok(p) && p@
                == spec_join(cs, '/'))),
            Err(PathFault::Traversal) => r matches Err(DzipError::InvalidInput(m)) && m@
                == "Invalid path component '..' (Zip Slip prevention)"@,
            Err(PathFault::BadPrefix) => false,
        },
{
    let comps = split_components(path, false);
    match scan_components(&comps, false) {
        Ok(kept) => {
            if kept.len() == 0 {
                Err(
                    DzipError::InvalidInput(String::from_str("Empty path after sanitization")),
                )
            } else {
                Ok(join_components(&kept, false))
            }
        },
        Err(PathFault::Traversal) => Err(
            DzipError::InvalidInput(
                String::from_str("Invalid path component '..' (Zip Slip prevention)"),
            ),
        ),
        Err(PathFault::BadPrefix) => {
            proof {
                lemma_scan_no_colon_fault(comps.deep_view());
            }
            Err(DzipError::InvalidInput(String::from_str("Empty path after sanitization")))
        },
    }
}

/// A property holding of every input component holds of every component
/// the scan keeps.
pub proof fn lemma_scan_preserves(cs: Seq<Seq<char>>, cc: bool, p: spec_fn(Seq<char>) -> bool)
    requires
        forall|i: int| 0 <= i < cs.len() ==> p(cs[i]),
    ensures
        match spec_scan(cs, cc) {
            Ok(out) => forall|i: int| 0 <= i < out.len() ==> p(out[i]),
            Err(_) => true,
        },
    decreases cs.len(),
{
    if cs.len() != 0 {
        assert(forall|i: int| 0 <= i < cs.drop_first().len() ==> p(cs.drop_first()[i]));
        lemma_scan_preserves(cs.drop_first(), cc, p);
        let c = cs[0];
        if spec_kept(c) && c != ".."@ && !(cc && spec_has_colon(c)) {
            match spec_scan(cs.drop_first(), cc) {
                Ok(rest) => {
                    assert forall|i: int| 0 <= i < (seq![c] + rest).len() implies p(
                        (seq![c] + rest)[i],
                    ) by {
                        if i >= 1 {
                            assert((seq![c] + rest)[i] == rest[i - 1]);
                        }
                    }
                },
                Err(_) => {},
            }
        }
    }
}

/// Every component the scan keeps survives its checks: it is nonempty,
/// is neither `.` nor `..`, and, when the colon check ran, holds no `:`.
pub proof fn lemma_scan_kept_good(cs: Seq<Seq<char>>, cc: bool)
    ensures
        match spec_scan(cs, cc) {
            Ok(out) => forall|i: int|
                0 <= i < out.len() ==> spec_kept(out[i]) && out[i] != ".."@ && (cc
                    ==> !spec_has_colon(out[i])),
            Err(_) => true,
        },
    decreases cs.len(),
{
    if cs.len() != 0 {
        lemma_scan_kept_good(cs.drop_first(), cc);
        let c = cs[0];
        if spec_kept(c) && c != ".."@ && !(cc && spec_has_colon(c)) {
            match spec_scan(cs.drop_first(), cc) {
                Ok(rest) => {
                    assert forall|i: int| 0 <= i < (seq![c] + rest).len() implies spec_kept(
                        (seq![c] + rest)[i],
                    ) && (seq![c] + rest)[i] != ".."@ && (cc ==> !spec_has_colon(
                        (seq![c] + rest)[i],
                    )) by {
                        if i >= 1 {
                            assert((seq![c] + rest)[i] == rest[i - 1]);
                        }
                    }
                },
                Err(_) => {},
            }
        }
    }
}

/// A `..` anywhere in the component list makes the scan fault.
pub proof fn lemma_traversal_always_faults(cs: Seq<Seq<char>>, cc: bool)
    requires
        exists|i: int| 0 <= i < cs.len() && cs[i] == ".."@,
    ensures
        spec_scan(cs, cc) is Err,
    decreases cs.len(),
{
    let i = choose|i: int| 0 <= i < cs.len() && cs[i] == ".."@;
    reveal_strlit(".");
    reveal_strlit("..");
    assert(("."@).len() == 1);
    assert((".."@).len() == 2);
    if i == 0 {
        assert(spec_kept(cs[0]));
    } else {
        assert(cs.drop_first()[i - 1] == cs[i]);
        lemma_traversal_always_faults(cs.drop_first(), cc);
        let c = cs[0];
        if spec_kept(c) && c != ".."@ && !(cc && spec_has_colon(c)) {
            match spec_scan(cs.drop_first(), cc) {
                Ok(_) => {
                    assert(false);
                },
                Err(_) => {},
            }
        }
    }
}

/// Splitting a join on its own separator restores the components, as long
/// as no component holds a separator character.
pub proof fn lemma_split_join_inverse(cs: Seq<Seq<char>>, sep: spec_fn(char) -> bool, q: char)
    requires
        sep(q),
        cs.len() >= 1,
        forall|i: int, j: int| 0 <= i < cs.len() && 0 <= j < cs[i].len() ==> !sep(cs[i][j]),
    ensures
        spec_split(spec_join(cs, q), sep) == cs,
    decreases cs.len(),
{
    if cs.len() == 1 {
        let c = cs[0];
        lemma_split_first_segment(c, sep, c.len() as int);
        assert(spec_split(spec_join(cs, q), sep) =~= cs);
    } else {
        let rest = cs.drop_first();
        let joined = spec_join(cs, q);
        assert(joined == cs[0] + seq![q] + spec_join(rest, q));
        let k = cs[0].len() as int;
        assert forall|j: int| 0 <= j < k implies !sep(joined[j]) by {
            assert(joined[j] == cs[0][j]);
        }
        assert(joined[k] == q);
        lemma_split_first_segment(joined, sep, k);
        assert(joined.take(k) =~= cs[0]);
        assert(joined.skip(k + 1) =~= spec_join(rest, q));
        assert(forall|i: int, j: int|
            0 <= i < rest.len() && 0 <= j < rest[i].len() ==> rest[i][j] == cs[i + 1][j]);
        lemma_split_join_inverse(rest, sep, q);
        assert(spec_split(joined, sep) =~= seq![cs[0]] + rest);
        assert(seq![cs[0]] + rest =~= cs);
    }
}

/// The components of `p` under both separator styles.
pub open spec fn spec_split_any(p: Seq<char>) -> Seq<Seq<char>> {
    spec_split(p, |c: char| any_sep(c))
}

/// A safe relative path: either the current directory alone, or a path
/// whose components (under either separator style) are all plain names,
/// so joining it beneath a base directory cannot escape that base.
pub open spec fn spec_safe_rel_path(p: Seq<char>) -> bool {
    p == "."@ || (forall|i: int|
        0 <= i < spec_split_any(p).len() ==> {
            let comp = #[trigger] spec_split_any(p)[i];
            comp.len() > 0 && comp != "."@ && comp != ".."@
        })
}

/// Path safety: whenever normalization accepts a path, the result is a
/// safe relative path (no empty, `.` or `..` component under either
/// separator style), and a `..` component always faults the scan.
pub proof fn lemma_sanitize_safe(s: Seq<char>)
    ensures
        match spec_scan(spec_split(s, |c: char| any_sep(c)), true) {
            Ok(cs) => (cs.len() == 0 ==> spec_safe_rel_path("."@)) && (cs.len() > 0
                ==> spec_safe_rel_path(spec_join(cs, '/'))),
            Err(_) => true,
        },
        (exists|i: int|
            0 <= i < spec_split_any(s).len() && #[trigger] spec_split_any(s)[i] == ".."@)
            ==> spec_scan(spec_split(s, |c: char| any_sep(c)), true) is Err,
{
    let anyf = |c: char| any_sep(c);
    let parts = spec_split(s, anyf);
    lemma_split_components_clean(s, anyf);
    lemma_scan_kept_good(parts, true);
    lemma_scan_preserves(
        parts,
        true,
        |comp: Seq<char>| forall|j: int| 0 <= j < comp.len() ==> !any_sep(comp[j]),
    );
    match spec_scan(parts, true) {
        Ok(cs) => {
            if cs.len() > 0 {
                let joined = spec_join(cs, '/');
                lemma_split_join_inverse(cs, anyf, '/');
                assert(spec_split(joined, anyf) == cs);
                assert(spec_split_any(joined) == cs);
                reveal_strlit(".");
                assert(("."@).len() == 1);
                assert forall|i: int| 0 <= i < spec_split_any(joined).len() implies {
                    let comp = #[trigger] spec_split_any(joined)[i];
                    comp.len() > 0 && comp != "."@ && comp != ".."@
                } by {
                    assert(spec_kept(cs[i]) && cs[i] != ".."@);
                }
            }
        },
        Err(_) => {},
    }
    if exists|i: int| 0 <= i < parts.len() && #[trigger] parts[i] == ".."@ {
        assert(parts == spec_split_any(s));
        lemma_traversal_always_faults(parts, true);
    }
    if exists|i: int| 0 <= i < spec_split_any(s).len() && #[trigger] spec_split_any(s)[i] == ".."@ {
        let i = choose|i: int|
            0 <= i < spec_split_any(s).len() && #[trigger] spec_split_any(s)[i] == ".."@;
        assert(parts[i] == ".."@);
        lemma_traversal_always_faults(parts, true);
    }
}

/// Round trip through the archive format: a path that already uses only
/// backslash separators and plain components (nonempty, no `.`, `..` or
/// `:`) is returned unchanged by converting from and back to the archive
/// format.  A path with `/` separators comes back with them rewritten to
/// backslashes, so it is excluded here.
pub proof fn lemma_path_round_trip(s: Seq<char>)
    requires
        forall|i: int|
            0 <= i < spec_split_any(s).len() ==> {
                let comp = #[trigger] spec_split_any(s)[i];
                comp.len() > 0 && comp != "."@ && comp != ".."@ && !spec_has_colon(comp)
            },
        forall|i: int| 0 <= i < s.len() ==> s[i] != '/',
    ensures
        spec_scan(spec_split(s, |c: char| any_sep(c)), true) matches Ok(cs) && cs.len() > 0
            && spec_archive_of(spec_join(cs, '/')) == s,
{
    let anyf = |c: char| any_sep(c);
    let parts = spec_split(s, anyf);
    lemma_split_nonempty(s, anyf);
    assert(parts == spec_split_any(s));
    assert forall|i: int| 0 <= i < parts.len() implies parts[i].len() > 0 && parts[i] != "."@
        && parts[i] != ".."@ && !spec_has_colon(parts[i]) by {
        assert(spec_split_any(s)[i] == parts[i]);
    }
    lemma_scan_all_kept(parts, true);
    assert(spec_scan(parts, true) == Ok::<_, PathFault>(parts));
    lemma_join_split_replace(s, anyf, '/');
    let t = spec_join(parts, '/');
    assert(t == Seq::new(
        s.len(),
        |i: int|
            if anyf(s[i]) {
                '/'
            } else {
                s[i]
            },
    ));
    assert(spec_archive_of(t) =~= s);
}

/// When every component passes the checks, the scan keeps the whole list.
proof fn lemma_scan_all_kept(cs: Seq<Seq<char>>, cc: bool)
    requires
        forall|i: int|
            0 <= i < cs.len() ==> cs[i].len() > 0 && cs[i] != "."@ && cs[i] != ".."@
                && !spec_has_colon(cs[i]),
    ensures
        spec_scan(cs, cc) == Ok::<_, PathFault>(cs),
    decreases cs.len(),
{
    if cs.len() == 0 {
        assert(spec_scan(cs, cc) == Ok::<_, PathFault>(Seq::<Seq<char>>::empty()));
        assert(cs =~= Seq::<Seq<char>>::empty());
    } else {
        assert(forall|i: int|
            0 <= i < cs.drop_first().len() ==> cs.drop_first()[i] == cs[i + 1]);
        lemma_scan_all_kept(cs.drop_first(), cc);
        assert(spec_kept(cs[0]));
        assert(seq![cs[0]] + cs.drop_first() =~= cs);
    }
}

} // verus!
