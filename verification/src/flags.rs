use vstd::prelude::*;
use vstd::string::StringExecFns;

verus! {

/// Codec flag bit: compressed buffer marker (not decodable).
pub const CHUNK_COMBUF: u16 = 0x1;
/// Codec flag bit: archive-native range coder (decoded as pass-through).
pub const CHUNK_DZ: u16 = 0x4;
/// Codec flag bit: zlib stream.
pub const CHUNK_ZLIB: u16 = 0x8;
/// Codec flag bit: bzip2 stream.
pub const CHUNK_BZIP: u16 = 0x10;
/// Codec flag bit: MP3 payload (not decodable).
pub const CHUNK_MP3: u16 = 0x20;
/// Codec flag bit: JPEG payload (not decodable).
pub const CHUNK_JPEG: u16 = 0x40;
/// Codec flag bit: ignore payload and emit zero bytes.
pub const CHUNK_ZERO: u16 = 0x80;
/// Codec flag bit: explicit verbatim copy.
pub const CHUNK_COPYCOMP: u16 = 0x100;
/// Codec flag bit: LZMA stream.
pub const CHUNK_LZMA: u16 = 0x200;
/// Codec flag bit: random-access marker (not decodable).
pub const CHUNK_RANDOMACCESS: u16 = 0x400;

/// All flag bits the format defines.
pub const CHUNK_ALL_KNOWN: u16 = 0x7FD;

/// The name of a single flag bit, as it appears in repack descriptors.
/// Unknown bits have no name and map to zero under [`spec_flag_bit`].
pub open spec fn spec_flag_bit(name: Seq<char>) -> u16 {
    if name == "COMBUF"@ {
        CHUNK_COMBUF
    } else if name == "DZ_RANGE"@ {
        CHUNK_DZ
    } else if name == "ZLIB"@ {
        CHUNK_ZLIB
    } else if name == "BZIP"@ {
        CHUNK_BZIP
    } else if name == "MP3"@ {
        CHUNK_MP3
    } else if name == "JPEG"@ {
        CHUNK_JPEG
    } else if name == "ZERO"@ {
        CHUNK_ZERO
    } else if name == "COPY"@ {
        CHUNK_COPYCOMP
    } else if name == "LZMA"@ {
        CHUNK_LZMA
    } else if name == "RANDOM_ACCESS"@ {
        CHUNK_RANDOMACCESS
    } else {
        0
    }
}

/// Bitwise-or of the named bits of every entry, in list order.
pub open spec fn spec_encode_flags(names: Seq<Seq<char>>) -> u16
    decreases names.len(),
{
    if names.len() == 0 {
        0u16
    } else {
        spec_encode_flags(names.drop_last()) | spec_flag_bit(names.last())
    }
}

/// A singleton name list when the condition holds, else the empty list.
pub open spec fn spec_name_if(cond: bool, name: Seq<char>) -> Seq<Seq<char>> {
    if cond {
        seq![name]
    } else {
        Seq::empty()
    }
}

/// The list of flag names for a mask: `["COPY"]` for mask zero, else one
/// name per set bit in the fixed order below.
pub open spec fn spec_decode_flags(flags: u16) -> Seq<Seq<char>> {
    if flags == 0 {
        seq!["COPY"@]
    } else {
        spec_name_if(flags & CHUNK_COMBUF != 0, "COMBUF"@) + spec_name_if(
            flags & CHUNK_DZ != 0,
            "DZ_RANGE"@,
        ) + spec_name_if(flags & CHUNK_ZLIB != 0, "ZLIB"@) + spec_name_if(
            flags & CHUNK_BZIP != 0,
            "BZIP"@,
        ) + spec_name_if(flags & CHUNK_MP3 != 0, "MP3"@) + spec_name_if(
            flags & CHUNK_JPEG != 0,
            "JPEG"@,
        ) + spec_name_if(flags & CHUNK_ZERO != 0, "ZERO"@) + spec_name_if(
            flags & CHUNK_COPYCOMP != 0,
            "COPY"@,
        ) + spec_name_if(flags & CHUNK_LZMA != 0, "LZMA"@) + spec_name_if(
            flags & CHUNK_RANDOMACCESS != 0,
            "RANDOM_ACCESS"@,
        )
    }
}

/// Append `name` to the list exactly when `cond` holds.
fn push_if(list: &mut Vec<String>, cond: bool, name: String)
    ensures
        final(list).deep_view() == old(list).deep_view() + spec_name_if(cond, name@),
{
    if cond {
        let ghost before = list.deep_view();
        list.push(name);
        assert(list.deep_view() =~= before + spec_name_if(cond, name@));
    } else {
        assert(list.deep_view() =~= list.deep_view() + spec_name_if(cond, name@));
    }
}

/// Expand a flag mask into the list of flag names it sets; mask zero means
/// a plain copy and yields `["COPY"]`.
pub fn decode_flags(flags: u16) -> (r: Vec<String>)
    ensures
        r.deep_view() == spec_decode_flags(flags),
{
    let mut list: Vec<String> = Vec::new();
    if flags == 0 {
        list.push(String::from_str("COPY"));
        assert(list.deep_view() =~= spec_decode_flags(flags));
        return list;
    }
    let ghost e1 = spec_name_if(flags & CHUNK_COMBUF != 0, "COMBUF"@);
    let ghost e2 = e1 + spec_name_if(flags & CHUNK_DZ != 0, "DZ_RANGE"@);
    let ghost e3 = e2 + spec_name_if(flags & CHUNK_ZLIB != 0, "ZLIB"@);
    let ghost e4 = e3 + spec_name_if(flags & CHUNK_BZIP != 0, "BZIP"@);
    let ghost e5 = e4 + spec_name_if(flags & CHUNK_MP3 != 0, "MP3"@);
    let ghost e6 = e5 + spec_name_if(flags & CHUNK_JPEG != 0, "JPEG"@);
    let ghost e7 = e6 + spec_name_if(flags & CHUNK_ZERO != 0, "ZERO"@);
    let ghost e8 = e7 + spec_name_if(flags & CHUNK_COPYCOMP != 0, "COPY"@);
    let ghost e9 = e8 + spec_name_if(flags & CHUNK_LZMA != 0, "LZMA"@);
    let ghost e10 = e9 + spec_name_if(flags & CHUNK_RANDOMACCESS != 0, "RANDOM_ACCESS"@);
    push_if(&mut list, flags & CHUNK_COMBUF != 0, String::from_str("COMBUF"));
    assert(list.deep_view() =~= e1);
    push_if(&mut list, flags & CHUNK_DZ != 0, String::from_str("DZ_RANGE"));
    assert(list.deep_view() == e2);
    push_if(&mut list, flags & CHUNK_ZLIB != 0, String::from_str("ZLIB"));
    assert(list.deep_view() == e3);
    push_if(&mut list, flags & CHUNK_BZIP != 0, String::from_str("BZIP"));
    assert(list.deep_view() == e4);
    push_if(&mut list, flags & CHUNK_MP3 != 0, String::from_str("MP3"));
    assert(list.deep_view() == e5);
    push_if(&mut list, flags & CHUNK_JPEG != 0, String::from_str("JPEG"));
    assert(list.deep_view() == e6);
    push_if(&mut list, flags & CHUNK_ZERO != 0, String::from_str("ZERO"));
    assert(list.deep_view() == e7);
    push_if(&mut list, flags & CHUNK_COPYCOMP != 0, String::from_str("COPY"));
    assert(list.deep_view() == e8);
    push_if(&mut list, flags & CHUNK_LZMA != 0, String::from_str("LZMA"));
    assert(list.deep_view() == e9);
    push_if(&mut list, flags & CHUNK_RANDOMACCESS != 0, String::from_str("RANDOM_ACCESS"));
    assert(list.deep_view() == e10);
    assert(e10 == spec_decode_flags(flags));
    list
}

/// Fold a list of flag names back into a mask; unrecognised names are
/// ignored and the empty list yields zero.
pub fn encode_flags(flags_vec: &Vec<String>) -> (r: u16)
    ensures
        r == spec_encode_flags(flags_vec.deep_view()),
{
    let mut res: u16 = 0;
    let mut i: usize = 0;
    while i < flags_vec.len()
        invariant
            i <= flags_vec.len(),
            res == spec_encode_flags(flags_vec.deep_view().take(i as int)),
        decreases flags_vec.len() - i,
    {
        let bit = flag_bit(&flags_vec[i]);
        proof {
            assert(flags_vec.deep_view().take(i + 1 as int).drop_last() =~= flags_vec.deep_view()
                .take(i as int));
            assert(flags_vec.deep_view().take(i + 1 as int).last() == flags_vec.deep_view()[
                i as int
            ]);
        }
        res = res | bit;
        i = i + 1;
    }
    proof {
        assert(flags_vec.deep_view().take(flags_vec.len() as int) =~= flags_vec.deep_view());
    }
    res
}

/// Look up the bit for one flag name; zero for names the format does not
/// define.
fn flag_bit(name: &String) -> (r: u16)
    ensures
        r == spec_flag_bit(name@),
{
    if *name == String::from_str("COMBUF") {
        CHUNK_COMBUF
    } else if *name == String::from_str("DZ_RANGE") {
        CHUNK_DZ
    } else if *name == String::from_str("ZLIB") {
        CHUNK_ZLIB
    } else if *name == String::from_str("BZIP") {
        CHUNK_BZIP
    } else if *name == String::from_str("MP3") {
        CHUNK_MP3
    } else if *name == String::from_str("JPEG") {
        CHUNK_JPEG
    } else if *name == String::from_str("ZERO") {
        CHUNK_ZERO
    } else if *name == String::from_str("COPY") {
        CHUNK_COPYCOMP
    } else if *name == String::from_str("LZMA") {
        CHUNK_LZMA
    } else if *name == String::from_str("RANDOM_ACCESS") {
        CHUNK_RANDOMACCESS
    } else {
        0
    }
}

/// Any bitwise-or with zero is the identity.
proof fn lemma_or_zero(z: u16)
    ensures
        0u16 | z == z,
        z | 0u16 == z,
{
    assert(0u16 | z == z && z | 0u16 == z) by (bit_vector);
}

/// Encoding a singleton name list yields that name's bit.
proof fn lemma_encode_single(c: bool, n: Seq<char>)
    ensures
        spec_encode_flags(spec_name_if(c, n)) == if c {
            spec_flag_bit(n)
        } else {
            0u16
        },
{
    if c {
        let s = spec_name_if(c, n);
        assert(s.len() == 1);
        assert(s.last() == n);
        assert(s.drop_last() =~= Seq::<Seq<char>>::empty());
        assert(spec_encode_flags(s.drop_last()) == 0);
        assert(spec_encode_flags(s) == 0u16 | spec_flag_bit(n));
        lemma_or_zero(spec_flag_bit(n));
    }
}

/// Encoding distributes over list concatenation as bitwise-or.
proof fn lemma_encode_concat(a: Seq<Seq<char>>, b: Seq<Seq<char>>)
    ensures
        spec_encode_flags(a + b) == spec_encode_flags(a) | spec_encode_flags(b),
    decreases b.len(),
{
    if b.len() == 0 {
        assert(a + b =~= a);
        lemma_or_zero(spec_encode_flags(a));
    } else {
        lemma_encode_concat(a, b.drop_last());
        assert((a + b).drop_last() =~= a + b.drop_last());
        let x = spec_encode_flags(a);
        let y = spec_encode_flags(b.drop_last());
        let z = spec_flag_bit(b.last());
        assert((x | y) | z == x | (y | z)) by (bit_vector);
    }
}

/// Decoding a mask and encoding the name list back returns the mask, for
/// every nonzero mask made only of bits the format defines.  (The zero
/// mask decodes to `["COPY"]`, whose name carries the explicit-copy bit,
/// so it is the one mask this does not hold for.)
pub proof fn lemma_flags_round_trip(x: u16)
    requires
        x != 0,
        x & CHUNK_ALL_KNOWN == x,
    ensures
        spec_encode_flags(spec_decode_flags(x)) == x,
{
    reveal_strlit("COMBUF");
    reveal_strlit("DZ_RANGE");
    reveal_strlit("ZLIB");
    reveal_strlit("BZIP");
    reveal_strlit("MP3");
    reveal_strlit("JPEG");
    reveal_strlit("ZERO");
    reveal_strlit("COPY");
    reveal_strlit("LZMA");
    reveal_strlit("RANDOM_ACCESS");
    let s1 = spec_name_if(x & CHUNK_COMBUF != 0, "COMBUF"@);
    let s2 = spec_name_if(x & CHUNK_DZ != 0, "DZ_RANGE"@);
    let s3 = spec_name_if(x & CHUNK_ZLIB != 0, "ZLIB"@);
    let s4 = spec_name_if(x & CHUNK_BZIP != 0, "BZIP"@);
    let s5 = spec_name_if(x & CHUNK_MP3 != 0, "MP3"@);
    let s6 = spec_name_if(x & CHUNK_JPEG != 0, "JPEG"@);
    let s7 = spec_name_if(x & CHUNK_ZERO != 0, "ZERO"@);
    let s8 = spec_name_if(x & CHUNK_COPYCOMP != 0, "COPY"@);
    let s9 = spec_name_if(x & CHUNK_LZMA != 0, "LZMA"@);
    let s10 = spec_name_if(x & CHUNK_RANDOMACCESS != 0, "RANDOM_ACCESS"@);
    assert("COMBUF"@.len() == 6);
    assert("DZ_RANGE"@.len() == 8);
    assert("ZLIB"@.len() == 4);
    assert("BZIP"@.len() == 4);
    assert("MP3"@.len() == 3);
    assert("JPEG"@.len() == 4);
    assert("ZERO"@.len() == 4);
    assert("COPY"@.len() == 4);
    assert("LZMA"@.len() == 4);
    assert("RANDOM_ACCESS"@.len() == 13);
    assert("ZLIB"@[0] != "BZIP"@[0]);
    assert("ZLIB"@ != "BZIP"@);
    assert("ZLIB"@[0] != "JPEG"@[0]);
    assert("ZLIB"@ != "JPEG"@);
    assert("ZLIB"@[1] != "ZERO"@[1]);
    assert("ZLIB"@ != "ZERO"@);
    assert("ZLIB"@[0] != "COPY"@[0]);
    assert("ZLIB"@ != "COPY"@);
    assert("ZLIB"@[0] != "LZMA"@[0]);
    assert("ZLIB"@ != "LZMA"@);
    assert("BZIP"@[0] != "JPEG"@[0]);
    assert("BZIP"@ != "JPEG"@);
    assert("BZIP"@[0] != "ZERO"@[0]);
    assert("BZIP"@ != "ZERO"@);
    assert("BZIP"@[0] != "COPY"@[0]);
    assert("BZIP"@ != "COPY"@);
    assert("BZIP"@[0] != "LZMA"@[0]);
    assert("BZIP"@ != "LZMA"@);
    assert("JPEG"@[0] != "ZERO"@[0]);
    assert("JPEG"@ != "ZERO"@);
    assert("JPEG"@[0] != "COPY"@[0]);
    assert("JPEG"@ != "COPY"@);
    assert("JPEG"@[0] != "LZMA"@[0]);
    assert("JPEG"@ != "LZMA"@);
    assert("ZERO"@[0] != "COPY"@[0]);
    assert("ZERO"@ != "COPY"@);
    assert("ZERO"@[0] != "LZMA"@[0]);
    assert("ZERO"@ != "LZMA"@);
    assert("COPY"@[0] != "LZMA"@[0]);
    assert("COPY"@ != "LZMA"@);
    assert(spec_flag_bit("COMBUF"@) == CHUNK_COMBUF);
    assert(spec_flag_bit("DZ_RANGE"@) == CHUNK_DZ);
    assert(spec_flag_bit("ZLIB"@) == CHUNK_ZLIB);
    assert(spec_flag_bit("BZIP"@) == CHUNK_BZIP);
    assert(spec_flag_bit("MP3"@) == CHUNK_MP3);
    assert(spec_flag_bit("JPEG"@) == CHUNK_JPEG);
    assert(spec_flag_bit("ZERO"@) == CHUNK_ZERO);
    assert(spec_flag_bit("COPY"@) == CHUNK_COPYCOMP);
    assert(spec_flag_bit("LZMA"@) == CHUNK_LZMA);
    assert(spec_flag_bit("RANDOM_ACCESS"@) == CHUNK_RANDOMACCESS);
    lemma_encode_single(x & CHUNK_COMBUF != 0, "COMBUF"@);
    lemma_encode_single(x & CHUNK_DZ != 0, "DZ_RANGE"@);
    lemma_encode_single(x & CHUNK_ZLIB != 0, "ZLIB"@);
    lemma_encode_single(x & CHUNK_BZIP != 0, "BZIP"@);
    lemma_encode_single(x & CHUNK_MP3 != 0, "MP3"@);
    lemma_encode_single(x & CHUNK_JPEG != 0, "JPEG"@);
    lemma_encode_single(x & CHUNK_ZERO != 0, "ZERO"@);
    lemma_encode_single(x & CHUNK_COPYCOMP != 0, "COPY"@);
    lemma_encode_single(x & CHUNK_LZMA != 0, "LZMA"@);
    lemma_encode_single(x & CHUNK_RANDOMACCESS != 0, "RANDOM_ACCESS"@);
    lemma_encode_concat(s1, s2);
    lemma_encode_concat(s1 + s2, s3);
    lemma_encode_concat(s1 + s2 + s3, s4);
    lemma_encode_concat(s1 + s2 + s3 + s4, s5);
    lemma_encode_concat(s1 + s2 + s3 + s4 + s5, s6);
    lemma_encode_concat(s1 + s2 + s3 + s4 + s5 + s6, s7);
    lemma_encode_concat(s1 + s2 + s3 + s4 + s5 + s6 + s7, s8);
    lemma_encode_concat(s1 + s2 + s3 + s4 + s5 + s6 + s7 + s8, s9);
    lemma_encode_concat(s1 + s2 + s3 + s4 + s5 + s6 + s7 + s8 + s9, s10);
    assert((x & CHUNK_COMBUF != 0 ==> x & CHUNK_COMBUF == CHUNK_COMBUF) && (x & CHUNK_DZ != 0
        ==> x & CHUNK_DZ == CHUNK_DZ) && (x & CHUNK_ZLIB != 0 ==> x & CHUNK_ZLIB == CHUNK_ZLIB) && (
    x & CHUNK_BZIP != 0 ==> x & CHUNK_BZIP == CHUNK_BZIP) && (x & CHUNK_MP3 != 0 ==> x & CHUNK_MP3
        == CHUNK_MP3) && (x & CHUNK_JPEG != 0 ==> x & CHUNK_JPEG == CHUNK_JPEG) && (x & CHUNK_ZERO
        != 0 ==> x & CHUNK_ZERO == CHUNK_ZERO) && (x & CHUNK_COPYCOMP != 0 ==> x & CHUNK_COPYCOMP
        == CHUNK_COPYCOMP) && (x & CHUNK_LZMA != 0 ==> x & CHUNK_LZMA == CHUNK_LZMA) && (x
        & CHUNK_RANDOMACCESS != 0 ==> x & CHUNK_RANDOMACCESS == CHUNK_RANDOMACCESS))
        by (bit_vector);
    assert(((x & 0x1) | (x & 0x4) | (x & 0x8) | (x & 0x10) | (x & 0x20) | (x & 0x40) | (x & 0x80)
        | (x & 0x100) | (x & 0x200) | (x & 0x400)) == x) by (bit_vector)
        requires
            x & 0x7FD == x,
    ;
}

} // verus!
