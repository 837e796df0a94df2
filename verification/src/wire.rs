//! Little-endian integer codecs and byte-buffer primitives shared by the
//! frame builders, the request encoders and the response decoders.
use vstd::prelude::*;
use vstd::string::StringSliceAdditionalSpecFns;

verus! {

/// Value of two bytes read as a little-endian 16-bit integer.
pub open spec fn le16(lo: u8, hi: u8) -> int {
    lo as int + 256 * hi as int
}

/// Value of four bytes read as a little-endian 32-bit integer.
pub open spec fn le32(b0: u8, b1: u8, b2: u8, b3: u8) -> int {
    b0 as int + 256 * b1 as int + 65536 * b2 as int + 16777216 * b3 as int
}

/// The 16-bit little-endian integer stored at `s[i..i + 2]`.
pub open spec fn read_u16(s: Seq<u8>, i: int) -> int {
    le16(s[i], s[i + 1])
}

/// The 32-bit little-endian integer stored at `s[i..i + 4]`.
pub open spec fn read_u32(s: Seq<u8>, i: int) -> int {
    le32(s[i], s[i + 1], s[i + 2], s[i + 3])
}

/// Little-endian encoding of a 16-bit integer.
pub open spec fn u16_le(n: int) -> Seq<u8> {
    seq![(n % 256) as u8, (n / 256 % 256) as u8]
}

/// Little-endian encoding of a 32-bit integer.
pub open spec fn u32_le(n: int) -> Seq<u8> {
    seq![
        (n % 256) as u8,
        (n / 256 % 256) as u8,
        (n / 65536 % 256) as u8,
        (n / 16777216 % 256) as u8,
    ]
}

/// Little-endian encoding of a 64-bit integer.
pub open spec fn u64_le(n: int) -> Seq<u8> {
    u32_le(n % 4294967296) + u32_le(n / 4294967296)
}

/// Reading back a little-endian 16-bit encoding gives the encoded value.
pub proof fn lemma_u16_le_roundtrip(n: int)
    requires
        0 <= n < 65536,
    ensures
        u16_le(n).len() == 2,
        read_u16(u16_le(n), 0) == n,
{
}

/// Reading back a little-endian 32-bit encoding gives the encoded value.
pub proof fn lemma_u32_le_roundtrip(n: int)
    requires
        0 <= n < 4294967296,
    ensures
        u32_le(n).len() == 4,
        read_u32(u32_le(n), 0) == n,
{
}

/// Reads the little-endian `u16` at `data[i..i + 2]`.
pub fn get_u16_le(data: &[u8], i: usize) -> (r: u16)
    requires
        i + 2 <= data@.len(),
    ensures
        r as int == read_u16(data@, i as int),
{
    (data[i] as u16) + (data[i + 1] as u16) * 256
}

/// Reads the little-endian `u32` at `data[i..i + 4]`.
pub fn get_u32_le(data: &[u8], i: usize) -> (r: u32)
    requires
        i + 4 <= data@.len(),
    ensures
        r as int == read_u32(data@, i as int),
{
    (data[i] as u32) + (data[i + 1] as u32) * 256 + (data[i + 2] as u32) * 65536 + (data[i
        + 3] as u32) * 16777216
}

/// Appends one byte.
pub fn push_byte(out: &mut Vec<u8>, b: u8)
    ensures
        final(out)@ == old(out)@.push(b),
{
    out.push(b);
}

/// Appends the little-endian encoding of `n`.
pub fn push_u16_le(out: &mut Vec<u8>, n: u16)
    ensures
        final(out)@ == old(out)@ + u16_le(n as int),
{
    out.push((n % 256) as u8);
    out.push((n / 256) as u8);
    assert(final(out)@ =~= old(out)@ + u16_le(n as int));
}

/// Appends the little-endian encoding of `n`.
pub fn push_u32_le(out: &mut Vec<u8>, n: u32)
    ensures
        final(out)@ == old(out)@ + u32_le(n as int),
{
    out.push((n % 256) as u8);
    out.push((n / 256 % 256) as u8);
    out.push((n / 65536 % 256) as u8);
    out.push((n / 16777216) as u8);
    assert(final(out)@ =~= old(out)@ + u32_le(n as int));
}

/// Appends the little-endian encoding of `n`.
pub fn push_u64_le(out: &mut Vec<u8>, n: u64)
    ensures
        final(out)@ == old(out)@ + u64_le(n as int),
{
    push_u32_le(out, (n % 4294967296) as u32);
    push_u32_le(out, (n / 4294967296) as u32);
    assert(final(out)@ =~= old(out)@ + u64_le(n as int));
}

/// Appends every byte of `s`.
pub fn push_bytes(out: &mut Vec<u8>, s: &[u8])
    ensures
        final(out)@ == old(out)@ + s@,
{
    let ghost start = out@;
    let mut i: usize = 0;
    while i < s.len()
        invariant
            i <= s@.len(),
            out@ == start + s@.subrange(0, i as int),
        decreases s@.len() - i,
    {
        out.push(s[i]);
        i = i + 1;
        assert(out@ =~= start + s@.subrange(0, i as int));
    }
    assert(s@.subrange(0, s@.len() as int) =~= s@);
}

/// Appends the UTF-8 bytes of `s`.
pub fn push_str(out: &mut Vec<u8>, s: &str)
    ensures
        final(out)@ == old(out)@ + s.spec_bytes(),
{
    push_bytes(out, s.as_bytes());
}

/// Byte-wise equality of two slices.
pub fn bytes_eq(a: &[u8], b: &[u8]) -> (r: bool)
    ensures
        r == (a@ == b@),
{
    if a.len() != b.len() {
        return false;
    }
    let mut i: usize = 0;
    while i < a.len()
        invariant
            a@.len() == b@.len(),
            i <= a@.len(),
            a@.subrange(0, i as int) == b@.subrange(0, i as int),
        decreases a@.len() - i,
    {
        if a[i] != b[i] {
            assert(a@[i as int] != b@[i as int]);
            return false;
        }
        i = i + 1;
        assert(a@.subrange(0, i as int) =~= a@.subrange(0, i - 1).push(a@[i - 1]));
        assert(b@.subrange(0, i as int) =~= b@.subrange(0, i - 1).push(b@[i - 1]));
    }
    assert(a@ =~= a@.subrange(0, a@.len() as int));
    assert(b@ =~= b@.subrange(0, b@.len() as int));
    true
}

/// Copies `data[start..end]` into a new vector.
pub fn copy_range(data: &[u8], start: usize, end: usize) -> (r: Vec<u8>)
    requires
        start <= end <= data@.len(),
    ensures
        r@ == data@.subrange(start as int, end as int),
{
    let mut out: Vec<u8> = Vec::new();
    push_bytes(&mut out, &data[start..end]);
    out
}

} // verus!
