use vstd::prelude::*;

verus! {

/// The two little-endian bytes of a 16-bit value.
pub open spec fn spec_u16_bytes(v: u16) -> Seq<u8> {
    seq![(v as int % 256) as u8, (v as int / 256) as u8]
}

/// The four little-endian bytes of a 32-bit value.
pub open spec fn spec_u32_bytes(v: u32) -> Seq<u8> {
    seq![
        (v as int % 256) as u8,
        (v as int / 256 % 256) as u8,
        (v as int / 65536 % 256) as u8,
        (v as int / 16777216) as u8,
    ]
}

/// The 16-bit value read from two little-endian bytes.
pub open spec fn spec_le16(lo: u8, hi: u8) -> u16 {
    (lo as int + 256 * hi as int) as u16
}

/// The 32-bit value read from four little-endian bytes.
pub open spec fn spec_le32(b0: u8, b1: u8, b2: u8, b3: u8) -> u32 {
    (b0 as int + 256 * b1 as int + 65536 * b2 as int + 16777216 * b3 as int) as u32
}

/// Reading back the bytes of a 16-bit value returns the value.
pub proof fn lemma_u16_round_trip(v: u16)
    ensures
        spec_le16(spec_u16_bytes(v)[0], spec_u16_bytes(v)[1]) == v,
{
}

/// Reading back the bytes of a 32-bit value returns the value.
pub proof fn lemma_u32_round_trip(v: u32)
    ensures
        spec_le32(
            spec_u32_bytes(v)[0],
            spec_u32_bytes(v)[1],
            spec_u32_bytes(v)[2],
            spec_u32_bytes(v)[3],
        ) == v,
{
    let n = v as int;
    assert(n == 256 * (n / 256) + n % 256);
    assert(n / 256 == 256 * (n / 256 / 256) + n / 256 % 256);
    assert(n / 256 / 256 == n / 65536) by (nonlinear_arith);
    assert(n / 65536 == 256 * (n / 65536 / 256) + n / 65536 % 256);
    assert(n / 65536 / 256 == n / 16777216) by (nonlinear_arith);
    assert(n / 16777216 < 256);
}

/// Append the two little-endian bytes of `v`.
pub fn push_u16(out: &mut Vec<u8>, v: u16)
    ensures
        final(out)@ == old(out)@ + spec_u16_bytes(v),
{
    let ghost before = out@;
    out.push((v % 256) as u8);
    out.push((v / 256) as u8);
    assert(out@ =~= before + spec_u16_bytes(v));
}

/// Append the four little-endian bytes of `v`.
pub fn push_u32(out: &mut Vec<u8>, v: u32)
    ensures
        final(out)@ == old(out)@ + spec_u32_bytes(v),
{
    let ghost before = out@;
    out.push((v % 256) as u8);
    out.push((v / 256 % 256) as u8);
    out.push((v / 65536 % 256) as u8);
    out.push((v / 16777216) as u8);
    assert(out@ =~= before + spec_u32_bytes(v));
}

/// Read the 16-bit little-endian value at `pos`.
pub fn read_u16(bytes: &Vec<u8>, pos: usize) -> (r: u16)
    requires
        pos + 2 <= bytes@.len(),
    ensures
        r == spec_le16(bytes@[pos as int], bytes@[pos as int + 1]),
{
    let _bound = bytes.len();
    let lo = bytes[pos];
    let hi = bytes[pos + 1];
    lo as u16 + 256 * (hi as u16)
}

/// Read the 32-bit little-endian value at `pos`.
pub fn read_u32(bytes: &Vec<u8>, pos: usize) -> (r: u32)
    requires
        pos + 4 <= bytes@.len(),
    ensures
        r == spec_le32(
            bytes@[pos as int],
            bytes@[pos as int + 1],
            bytes@[pos as int + 2],
            bytes@[pos as int + 3],
        ),
{
    let _bound = bytes.len();
    let b0 = bytes[pos];
    let b1 = bytes[pos + 1];
    let b2 = bytes[pos + 2];
    let b3 = bytes[pos + 3];
    b0 as u32 + 256 * (b1 as u32) + 65536 * (b2 as u32) + 16777216 * (b3 as u32)
}

} // verus!
