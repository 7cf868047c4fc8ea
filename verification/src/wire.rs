//! Big-endian numeric fields of the DNS wire format: the mathematical
//! byte layout of 16-bit and 32-bit values, and verified helpers that
//! write them into and read them out of byte buffers.

use vstd::prelude::*;

verus! {

/// The two big-endian bytes of a 16-bit value.
pub open spec fn u16_bytes(x: u16) -> Seq<u8> {
    seq![(x / 256) as u8, (x % 256) as u8]
}

/// The 16-bit value held by two big-endian bytes.
pub open spec fn u16_of(hi: u8, lo: u8) -> u16 {
    (hi as u16 * 256 + lo as u16) as u16
}

/// The four big-endian bytes of a 32-bit value.
pub open spec fn u32_bytes(x: u32) -> Seq<u8> {
    seq![
        (x / 0x1000000) as u8,
        ((x / 0x10000) % 256) as u8,
        ((x / 256) % 256) as u8,
        (x % 256) as u8,
    ]
}

/// The 32-bit value held by four big-endian bytes.
pub open spec fn u32_of(b0: u8, b1: u8, b2: u8, b3: u8) -> u32 {
    (b0 as u32 * 0x1000000 + b1 as u32 * 0x10000 + b2 as u32 * 256 + b3 as u32) as u32
}

/// The 16-bit field that starts at byte `pos` of `s`.
pub open spec fn be16_at(s: Seq<u8>, pos: int) -> u16 {
    u16_of(s[pos], s[pos + 1])
}

/// The 32-bit field that starts at byte `pos` of `s`.
pub open spec fn be32_at(s: Seq<u8>, pos: int) -> u32 {
    u32_of(s[pos], s[pos + 1], s[pos + 2], s[pos + 3])
}

/// Reading back the two bytes of a 16-bit value gives the value.
pub proof fn lemma_u16_round_trip(x: u16)
    ensures
        u16_of(u16_bytes(x)[0], u16_bytes(x)[1]) == x,
{
}

/// Appends the two big-endian bytes of `x` to `out`.
pub fn push_u16(out: &mut Vec<u8>, x: u16)
    ensures
        final(out)@ == old(out)@ + u16_bytes(x),
{
    out.push((x / 256) as u8);
    out.push((x % 256) as u8);
    assert(out@ =~= old(out)@ + u16_bytes(x));
}

/// Reads the 16-bit big-endian field that starts at byte `pos` of `data`.
pub fn read_u16(data: &Vec<u8>, pos: usize) -> (r: u16)
    requires
        pos + 2 <= data@.len(),
    ensures
        r == be16_at(data@, pos as int),
{
    let _len: usize = data.len();
    let hi = data[pos];
    let lo = data[pos + 1];
    hi as u16 * 256 + lo as u16
}

/// Reads the 32-bit big-endian field that starts at byte `pos` of `data`.
pub fn read_u32(data: &Vec<u8>, pos: usize) -> (r: u32)
    requires
        pos + 4 <= data@.len(),
    ensures
        r == be32_at(data@, pos as int),
{
    let _len: usize = data.len();
    let b0 = data[pos];
    let b1 = data[pos + 1];
    let b2 = data[pos + 2];
    let b3 = data[pos + 3];
    b0 as u32 * 0x1000000 + b1 as u32 * 0x10000 + b2 as u32 * 256 + b3 as u32
}

} // verus!
