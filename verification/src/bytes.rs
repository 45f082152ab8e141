//! Little-endian integers and byte strings.
use vstd::prelude::*;

verus! {

/// The value of two little-endian bytes.
pub open spec fn le_u16(b: Seq<u8>) -> int {
    b[0] + b[1] * 0x100
}

/// The value of four little-endian bytes.
pub open spec fn le_u32(b: Seq<u8>) -> int {
    b[0] + b[1] * 0x100 + b[2] * 0x1_0000 + b[3] * 0x100_0000
}

/// The value of eight little-endian bytes.
pub open spec fn le_u64(b: Seq<u8>) -> int {
    le_u32(b.subrange(0, 4)) + le_u32(b.subrange(4, 8)) * 0x1_0000_0000
}

/// Byte `i` (0 to 3, least significant first) of `x` modulo 2^32.
#[verifier::opaque]
pub open spec fn le_byte(x: int, i: int) -> u8 {
    if i == 0 {
        (x % 0x100) as u8
    } else if i == 1 {
        ((x / 0x100) % 0x100) as u8
    } else if i == 2 {
        ((x / 0x1_0000) % 0x100) as u8
    } else {
        ((x / 0x100_0000) % 0x100) as u8
    }
}

/// The four little-endian bytes of `x`, taken modulo 2^32.
pub open spec fn u32_le(x: int) -> Seq<u8> {
    seq![le_byte(x, 0), le_byte(x, 1), le_byte(x, 2), le_byte(x, 3)]
}

/// The eight little-endian bytes of `x`, taken modulo 2^64.
pub open spec fn u64_le(x: int) -> Seq<u8> {
    u32_le(x % 0x1_0000_0000) + u32_le((x / 0x1_0000_0000) % 0x1_0000_0000)
}

/// The `u16` stored little-endian at `at`.
pub fn read_u16_le(b: &[u8], at: usize) -> (r: u16)
    requires
        at + 2 <= b@.len(),
    ensures
        r == le_u16(b@.subrange(at as int, at + 2)),
{
    let v: u32 = b[at] as u32 + (b[at + 1] as u32) * 0x100;
    v as u16
}

/// The `u32` stored little-endian at `at`.
pub fn read_u32_le(b: &[u8], at: usize) -> (r: u32)
    requires
        at + 4 <= b@.len(),
    ensures
        r == le_u32(b@.subrange(at as int, at + 4)),
{
    let v: u64 = b[at] as u64 + (b[at + 1] as u64) * 0x100 + (b[at + 2] as u64) * 0x1_0000
        + (b[at + 3] as u64) * 0x100_0000;
    v as u32
}

/// The `u64` stored little-endian at `at`.
pub fn read_u64_le(b: &[u8], at: usize) -> (r: u64)
    requires
        at + 8 <= b@.len(),
    ensures
        r == le_u64(b@.subrange(at as int, at + 8)),
{
    let n = b.len();
    assert(at + 8 <= n);
    let lo = read_u32_le(b, at);
    let hi = read_u32_le(b, at + 4);
    assert(b@.subrange(at as int, at + 8).subrange(0, 4) =~= b@.subrange(at as int, at + 4));
    assert(b@.subrange(at as int, at + 8).subrange(4, 8) =~= b@.subrange(at + 4, at + 8));
    lo as u64 + (hi as u64) * 0x1_0000_0000
}

/// Appends the four little-endian bytes of `x`.
pub fn push_u32_le(out: &mut Vec<u8>, x: u32)
    ensures
        final(out)@ == old(out)@ + u32_le(x as int),
{
    reveal(le_byte);
    out.push((x % 0x100) as u8);
    out.push(((x / 0x100) % 0x100) as u8);
    out.push(((x / 0x1_0000) % 0x100) as u8);
    out.push(((x / 0x100_0000) % 0x100) as u8);
    assert(final(out)@ =~= old(out)@ + u32_le(x as int));
}

/// Appends the eight little-endian bytes of `x`.
pub fn push_u64_le(out: &mut Vec<u8>, x: u64)
    ensures
        final(out)@ == old(out)@ + u64_le(x as int),
{
    push_u32_le(out, (x % 0x1_0000_0000) as u32);
    push_u32_le(out, (x / 0x1_0000_0000) as u32);
    assert(final(out)@ =~= old(out)@ + u64_le(x as int));
}

/// Appends all of `bytes`.
pub fn push_bytes(out: &mut Vec<u8>, bytes: &[u8])
    ensures
        final(out)@ == old(out)@ + bytes@,
{
    let ghost start = out@;
    let mut i: usize = 0;
    while i < bytes.len()
        invariant
            i <= bytes@.len(),
            out@ == start + bytes@.subrange(0, i as int),
            start == old(out)@,
        decreases bytes@.len() - i,
    {
        out.push(bytes[i]);
        i = i + 1;
        assert(out@ =~= start + bytes@.subrange(0, i as int));
    }
    assert(bytes@.subrange(0, i as int) =~= bytes@);
}

/// A fresh vector holding `bytes[start..end]`.
pub fn copy_range(bytes: &[u8], start: usize, end: usize) -> (r: Vec<u8>)
    requires
        start <= end <= bytes@.len(),
    ensures
        r@ == bytes@.subrange(start as int, end as int),
{
    let mut out: Vec<u8> = Vec::new();
    push_bytes(&mut out, &bytes[start..end]);
    assert(out@ =~= bytes@.subrange(start as int, end as int));
    out
}

/// Whether two byte strings are equal.
pub fn bytes_eq(a: &[u8], b: &[u8]) -> (r: bool)
    ensures
        r == (a@ == b@),
{
    if a.len() != b.len() {
        return false;
    }
    let mut i: usize = 0;
    while i < a.len()
        invariant
            a@.len() == b@.len(),
            i <= a@.len(),
            forall|j: int| 0 <= j < i ==> a@[j] == b@[j],
        decreases a@.len() - i,
    {
        if a[i] != b[i] {
            return false;
        }
        i = i + 1;
    }
    assert(a@ =~= b@);
    true
}

/// Reading back the four bytes of a `u32` gives the `u32`.
pub proof fn lemma_u32_le_roundtrip(x: int)
    requires
        0 <= x < 0x1_0000_0000,
    ensures
        le_u32(u32_le(x)) == x,
{
    reveal(le_byte);
    let b0 = x % 0x100;
    let q0 = x / 0x100;
    let b1 = q0 % 0x100;
    let q1 = q0 / 0x100;
    let b2 = q1 % 0x100;
    let q2 = q1 / 0x100;
    assert(x == b0 + q0 * 0x100);
    assert(q0 == b1 + q1 * 0x100);
    assert(q1 == b2 + q2 * 0x100);
    assert(q2 < 0x100);
    assert(x / 0x1_0000 == q1) by {
        vstd::arithmetic::div_mod::lemma_div_denominator(x, 0x100, 0x100);
    }
    assert(x / 0x100_0000 == q2) by {
        vstd::arithmetic::div_mod::lemma_div_denominator(x, 0x100, 0x1_0000);
        vstd::arithmetic::div_mod::lemma_div_denominator(q0, 0x100, 0x100);
    }
}

/// Reading back the eight bytes of a `u64` gives the `u64`.
pub proof fn lemma_u64_le_roundtrip(x: int)
    requires
        0 <= x < 0x1_0000_0000_0000_0000,
    ensures
        le_u64(u64_le(x)) == x,
{
    let lo = x % 0x1_0000_0000;
    let hi = x / 0x1_0000_0000;
    assert(hi < 0x1_0000_0000);
    assert(hi % 0x1_0000_0000 == hi);
    lemma_u32_le_roundtrip(lo);
    lemma_u32_le_roundtrip(hi);
    assert(u64_le(x).subrange(0, 4) =~= u32_le(lo));
    assert(u64_le(x).subrange(4, 8) =~= u32_le(hi));
}

} // verus!
