//! Little-endian integer fields inside byte buffers.

use vstd::prelude::*;

verus! {

/// The little-endian `u32` stored at `s[off..off + 4]`.
pub open spec fn spec_u32_le(s: Seq<u8>, off: int) -> u32 {
    (s[off] + 0x100 * s[off + 1] + 0x1_0000 * s[off + 2] + 0x100_0000 * s[off + 3]) as u32
}

/// The little-endian `u64` stored at `s[off..off + 8]`.
pub open spec fn spec_u64_le(s: Seq<u8>, off: int) -> u64 {
    (spec_u32_le(s, off) + 0x1_0000_0000 * spec_u32_le(s, off + 4)) as u64
}

/// The four little-endian bytes of `v`.
pub open spec fn le_bytes_u32(v: u32) -> Seq<u8> {
    seq![
        (v % 0x100) as u8,
        ((v / 0x100) % 0x100) as u8,
        ((v / 0x1_0000) % 0x100) as u8,
        (v / 0x100_0000) as u8,
    ]
}

/// `s` with the four bytes at `off` replaced by the little-endian `v`.
pub open spec fn spec_write_u32(s: Seq<u8>, off: int, v: u32) -> Seq<u8> {
    s.take(off) + le_bytes_u32(v) + s.skip(off + 4)
}

/// Read the little-endian `u32` at `b[off..off + 4]`.
pub fn read_u32(b: &[u8], off: usize) -> (v: u32)
    requires
        off + 4 <= b.len(),
    ensures
        v == spec_u32_le(b@, off as int),
{
    (b[off] as u32) + 0x100 * (b[off + 1] as u32) + 0x1_0000 * (b[off + 2] as u32) + 0x100_0000 * (
    b[off + 3] as u32)
}

/// Read the little-endian `u64` at `b[off..off + 8]`.
pub fn read_u64(b: &[u8], off: usize) -> (v: u64)
    requires
        off + 8 <= b.len(),
    ensures
        v == spec_u64_le(b@, off as int),
{
    let lo = read_u32(b, off) as u64;
    let hi = read_u32(b, off + 4) as u64;
    lo + 0x1_0000_0000 * hi
}

/// Store `v` little-endian at `b[off..off + 4]`.
pub fn write_u32(b: &mut Vec<u8>, off: usize, v: u32)
    requires
        off + 4 <= old(b).len(),
    ensures
        final(b)@ == spec_write_u32(old(b)@, off as int, v),
{
    b.set(off, (v % 0x100) as u8);
    b.set(off + 1, ((v / 0x100) % 0x100) as u8);
    b.set(off + 2, ((v / 0x1_0000) % 0x100) as u8);
    b.set(off + 3, (v / 0x100_0000) as u8);
    assert(b@ =~= spec_write_u32(old(b)@, off as int, v));
}

/// Reading back a field that was just written gives the written value.
pub proof fn lemma_read_after_write_u32(s: Seq<u8>, off: int, v: u32)
    requires
        0 <= off,
        off + 4 <= s.len(),
    ensures
        spec_write_u32(s, off, v).len() == s.len(),
        spec_u32_le(spec_write_u32(s, off, v), off) == v,
{
    let w = spec_write_u32(s, off, v);
    assert(w[off] == (v % 0x100) as u8);
    assert(w[off + 1] == ((v / 0x100) % 0x100) as u8);
    assert(w[off + 2] == ((v / 0x1_0000) % 0x100) as u8);
    assert(w[off + 3] == (v / 0x100_0000) as u8);
    let a = v % 0x100;
    let b = (v / 0x100) % 0x100;
    let c = (v / 0x1_0000) % 0x100;
    let d = v / 0x100_0000;
    assert(a + 0x100 * b + 0x1_0000 * c + 0x100_0000 * d == v) by (nonlinear_arith)
        requires
            a == v % 0x100,
            b == (v / 0x100) % 0x100,
            c == (v / 0x1_0000) % 0x100,
            d == v / 0x100_0000,
    ;
}

/// Whether `b[off..off + pat.len()]` equals `pat`.
pub fn bytes_at(b: &[u8], off: usize, pat: &[u8]) -> (r: bool)
    requires
        off + pat@.len() <= b.len(),
    ensures
        r == (b@.subrange(off as int, off + pat@.len()) == pat@),
{
    let mut k: usize = 0;
    while k < pat.len()
        invariant
            k <= pat@.len(),
            off + pat@.len() <= b.len(),
            forall|j: int| 0 <= j < k ==> b@[off + j] == pat@[j],
        decreases pat@.len() - k,
    {
        if b[off + k] != pat[k] {
            assert(b@.subrange(off as int, off + pat@.len())[k as int] != pat@[k as int]);
            return false;
        }
        k = k + 1;
    }
    assert(b@.subrange(off as int, off + pat@.len()) =~= pat@);
    true
}

} // verus!
