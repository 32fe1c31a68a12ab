//! Big-endian integer packing shared by the wire parsers and the box writers.

use vstd::prelude::*;

verus! {

/// The value of two bytes read as a big-endian 16-bit number.
pub open spec fn be16(hi: u8, lo: u8) -> int {
    hi as int * 256 + lo as int
}

/// The value of four bytes of `s` starting at `at`, read big-endian.
pub open spec fn be32_at(s: Seq<u8>, at: int) -> int {
    s[at] as int * 16777216 + s[at + 1] as int * 65536 + s[at + 2] as int * 256 + s[at + 3] as int
}

/// The four bytes of `v`, most significant first.
pub open spec fn u32_be(v: u32) -> Seq<u8> {
    seq![
        (v / 16777216) as u8,
        ((v / 65536) % 256) as u8,
        ((v / 256) % 256) as u8,
        (v % 256) as u8,
    ]
}

/// The two bytes of `v`, most significant first.
pub open spec fn u16_be(v: u16) -> Seq<u8> {
    seq![(v / 256) as u8, (v % 256) as u8]
}

/// The eight bytes of `v`, most significant first.
pub open spec fn u64_be(v: u64) -> Seq<u8> {
    u32_be((v / 4294967296) as u32) + u32_be((v % 4294967296) as u32)
}

/// Reads two bytes as a big-endian 16-bit number.
pub fn read_be16(hi: u8, lo: u8) -> (r: u16)
    ensures
        r as int == be16(hi, lo),
{
    let h: u16 = hi as u16;
    let l: u16 = lo as u16;
    h * 256 + l
}

/// Reads four bytes of `data` at `at` as a big-endian 32-bit number.
pub fn read_be32(data: &[u8], at: usize) -> (r: u32)
    requires
        at + 4 <= data@.len(),
    ensures
        r as int == be32_at(data@, at as int),
{
    let a: u32 = data[at] as u32;
    let b: u32 = data[at + 1] as u32;
    let c: u32 = data[at + 2] as u32;
    let d: u32 = data[at + 3] as u32;
    a * 16777216 + b * 65536 + c * 256 + d
}

/// Appends `value` to `out` as two big-endian bytes.
pub fn write_u16(out: &mut Vec<u8>, value: u16)
    ensures
        final(out)@ == old(out)@ + u16_be(value),
{
    out.push((value / 256) as u8);
    out.push((value % 256) as u8);
    assert(out@ =~= old(out)@ + u16_be(value));
}

/// Appends `value` to `out` as four big-endian bytes.
pub fn write_u32(out: &mut Vec<u8>, value: u32)
    ensures
        final(out)@ == old(out)@ + u32_be(value),
{
    out.push((value / 16777216) as u8);
    out.push(((value / 65536) % 256) as u8);
    out.push(((value / 256) % 256) as u8);
    out.push((value % 256) as u8);
    assert(out@ =~= old(out)@ + u32_be(value));
}

/// Appends `value` to `out` as eight big-endian bytes.
pub fn write_u64(out: &mut Vec<u8>, value: u64)
    ensures
        final(out)@ == old(out)@ + u64_be(value),
{
    write_u32(out, (value / 4294967296) as u32);
    write_u32(out, (value % 4294967296) as u32);
    assert(out@ =~= old(out)@ + u64_be(value));
}

/// Appends a copy of `src` to `out`.
pub fn append(out: &mut Vec<u8>, src: &[u8])
    ensures
        final(out)@ == old(out)@ + src@,
{
    out.extend_from_slice(src);
    assert(out@ =~= old(out)@ + src@);
}

/// A fresh vector holding `data[from..to]`.
pub fn copy_range(data: &[u8], from: usize, to: usize) -> (r: Vec<u8>)
    requires
        from <= to <= data@.len(),
    ensures
        r@ == data@.subrange(from as int, to as int),
{
    let mut r: Vec<u8> = Vec::new();
    let mut i: usize = from;
    while i < to
        invariant
            from <= i <= to <= data@.len(),
            r@ == data@.subrange(from as int, i as int),
        decreases to - i,
    {
        r.push(data[i]);
        i += 1;
        assert(r@ =~= data@.subrange(from as int, i as int));
    }
    r
}

} // verus!
