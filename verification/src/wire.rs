//! Big-endian integer encoding as the Barrier protocol puts it on the wire.
use vstd::prelude::*;

verus! {

/// The unsigned 16-bit value stored big-endian at `s[i..i + 2]`.
pub open spec fn be16(s: Seq<u8>, i: int) -> int {
    s[i] as int * 256 + s[i + 1] as int
}

/// The unsigned 32-bit value stored big-endian at `s[i..i + 4]`.
pub open spec fn be32(s: Seq<u8>, i: int) -> int {
    s[i] as int * 16777216 + s[i + 1] as int * 65536 + s[i + 2] as int * 256 + s[i + 3] as int
}

/// Two's-complement reading of a 16-bit unsigned value.
pub open spec fn signed16(u: int) -> int {
    if u >= 32768 {
        u - 65536
    } else {
        u
    }
}

/// Two's-complement bit pattern of a signed 16-bit value.
pub open spec fn unsigned16(v: int) -> int {
    if v < 0 {
        v + 65536
    } else {
        v
    }
}

/// Big-endian bytes of a 16-bit unsigned value.
pub open spec fn u16_bytes(v: int) -> Seq<u8> {
    seq![(v / 256) as u8, (v % 256) as u8]
}

/// Big-endian bytes of a signed 16-bit value (its two's-complement pattern).
pub open spec fn i16_bytes(v: int) -> Seq<u8> {
    u16_bytes(unsigned16(v))
}

/// Big-endian bytes of a 32-bit unsigned value.
pub open spec fn u32_bytes(v: int) -> Seq<u8> {
    seq![
        (v / 16777216) as u8,
        ((v / 65536) % 256) as u8,
        ((v / 256) % 256) as u8,
        (v % 256) as u8,
    ]
}

/// Little-endian bytes of a 32-bit unsigned value.
pub open spec fn u32_le_bytes(v: int) -> Seq<u8> {
    seq![
        (v % 256) as u8,
        ((v / 256) % 256) as u8,
        ((v / 65536) % 256) as u8,
        (v / 16777216) as u8,
    ]
}

/// Reads the big-endian `u16` at `at`.
pub fn read_u16_be(s: &[u8], at: usize) -> (r: u16)
    requires
        at + 2 <= s@.len(),
    ensures
        r as int == be16(s@, at as int),
{
    let hi: u16 = s[at] as u16;
    let lo: u16 = s[at + 1] as u16;
    hi * 256 + lo
}

/// Reads the big-endian `i16` at `at`.
pub fn read_i16_be(s: &[u8], at: usize) -> (r: i16)
    requires
        at + 2 <= s@.len(),
    ensures
        r as int == signed16(be16(s@, at as int)),
{
    let u: u16 = read_u16_be(s, at);
    if u >= 32768 {
        let low: i16 = (u - 32768) as i16;
        low - 32767 - 1
    } else {
        u as i16
    }
}

/// Reads the big-endian `u32` at `at`.
pub fn read_u32_be(s: &[u8], at: usize) -> (r: u32)
    requires
        at + 4 <= s@.len(),
    ensures
        r as int == be32(s@, at as int),
{
    let b0: u32 = s[at] as u32;
    let b1: u32 = s[at + 1] as u32;
    let b2: u32 = s[at + 2] as u32;
    let b3: u32 = s[at + 3] as u32;
    b0 * 16777216 + b1 * 65536 + b2 * 256 + b3
}

/// Appends the big-endian bytes of a `u16`.
pub fn push_u16_be(out: &mut Vec<u8>, v: u16)
    ensures
        final(out)@ == old(out)@ + u16_bytes(v as int),
{
    out.push((v / 256) as u8);
    out.push((v % 256) as u8);
    proof {
        assert(final(out)@ =~= old(out)@ + u16_bytes(v as int));
    }
}

/// Appends the big-endian bytes of an `i16`.
pub fn push_i16_be(out: &mut Vec<u8>, v: i16)
    ensures
        final(out)@ == old(out)@ + i16_bytes(v as int),
{
    let u: u16 = if v < 0 {
        (v as i32 + 65536) as u16
    } else {
        v as u16
    };
    push_u16_be(out, u);
}

/// Appends the big-endian bytes of a `u32`.
pub fn push_u32_be(out: &mut Vec<u8>, v: u32)
    ensures
        final(out)@ == old(out)@ + u32_bytes(v as int),
{
    out.push((v / 16777216) as u8);
    out.push(((v / 65536) % 256) as u8);
    out.push(((v / 256) % 256) as u8);
    out.push((v % 256) as u8);
    proof {
        assert(final(out)@ =~= old(out)@ + u32_bytes(v as int));
    }
}

/// Appends the little-endian bytes of a `u32`.
pub fn push_u32_le(out: &mut Vec<u8>, v: u32)
    ensures
        final(out)@ == old(out)@ + u32_le_bytes(v as int),
{
    out.push((v % 256) as u8);
    out.push(((v / 256) % 256) as u8);
    out.push(((v / 65536) % 256) as u8);
    out.push((v / 16777216) as u8);
    proof {
        assert(final(out)@ =~= old(out)@ + u32_le_bytes(v as int));
    }
}

/// Appends all of `data`.
pub fn push_bytes(out: &mut Vec<u8>, data: &[u8])
    ensures
        final(out)@ == old(out)@ + data@,
{
    let mut i: usize = 0;
    while i < data.len()
        invariant
            i <= data@.len(),
            out@ == old(out)@ + data@.subrange(0, i as int),
        decreases data@.len() - i,
    {
        out.push(data[i]);
        i = i + 1;
        proof {
            assert(out@ =~= old(out)@ + data@.subrange(0, i as int));
        }
    }
    proof {
        assert(data@.subrange(0, data@.len() as int) =~= data@);
    }
}

/// Reading back what `u16_bytes` wrote gives the value.
pub proof fn lemma_u16_roundtrip(v: int)
    requires
        0 <= v < 65536,
    ensures
        be16(u16_bytes(v), 0) == v,
{
}

/// Reading back what `u32_bytes` wrote gives the value.
pub proof fn lemma_u32_roundtrip(v: int)
    requires
        0 <= v < 4294967296,
    ensures
        be32(u32_bytes(v), 0) == v,
{
}

/// Reading back what `i16_bytes` wrote, as a signed value, gives the value.
pub proof fn lemma_i16_roundtrip(v: int)
    requires
        -32768 <= v < 32768,
    ensures
        signed16(be16(i16_bytes(v), 0)) == v,
{
}

} // verus!
