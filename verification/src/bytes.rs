//! Small helpers on byte buffers, and the big-endian integers of the wire.

use vstd::prelude::*;

verus! {

/// Appends `bytes` to `out`.
pub fn append_bytes(out: &mut Vec<u8>, bytes: &[u8])
    ensures
        final(out)@ == old(out)@ + bytes@,
{
    out.extend_from_slice(bytes);
    assert(out@ =~= old(out)@ + bytes@);
}

/// The bytes of `bytes` from `from` up to `to`, copied.
pub fn copy_range(bytes: &[u8], from: usize, to: usize) -> (out: Vec<u8>)
    requires
        from <= to <= bytes.len(),
    ensures
        out@ == bytes@.subrange(from as int, to as int),
{
    vstd::slice::slice_to_vec(vstd::slice::slice_subrange(bytes, from, to))
}

/// Whether two byte strings hold the same bytes.
pub fn bytes_eq(a: &[u8], b: &[u8]) -> (same: bool)
    ensures
        same == (a@ == b@),
{
    if a.len() != b.len() {
        return false;
    }
    let mut i: usize = 0;
    while i < a.len()
        invariant
            i <= a.len(),
            a.len() == b.len(),
            forall|j: int| 0 <= j < i ==> a@[j] == b@[j],
        decreases a.len() - i,
    {
        if a[i] != b[i] {
            return false;
        }
        i += 1;
    }
    assert(a@ =~= b@);
    true
}

/// The four bytes of `x`, most significant first.
pub open spec fn be32(x: u32) -> Seq<u8> {
    seq![
        (x / 0x100_0000) as u8,
        ((x / 0x1_0000) % 0x100) as u8,
        ((x / 0x100) % 0x100) as u8,
        (x % 0x100) as u8,
    ]
}

/// The number that four bytes, most significant first, denote.
pub open spec fn from_be32(b: Seq<u8>) -> u32
    recommends
        b.len() == 4,
{
    (b[0] * 0x100_0000 + b[1] * 0x1_0000 + b[2] * 0x100 + b[3]) as u32
}

/// The two bytes of `x`, most significant first.
pub open spec fn be16(x: u16) -> Seq<u8> {
    seq![(x / 0x100) as u8, (x % 0x100) as u8]
}

/// The number that two bytes, most significant first, denote.
pub open spec fn from_be16(b: Seq<u8>) -> u16
    recommends
        b.len() == 2,
{
    (b[0] * 0x100 + b[1]) as u16
}

proof fn lemma_split32(x: u32)
    ensures
        x == (x / 0x100_0000) * 0x100_0000 + ((x / 0x1_0000) % 0x100) * 0x1_0000 + ((x / 0x100)
            % 0x100) * 0x100 + x % 0x100,
{
    let q1 = x / 0x100;
    let q2 = x / 0x1_0000;
    let q3 = x / 0x100_0000;
    assert(q1 / 0x100 == q2);
    assert(q2 / 0x100 == q3);
}

proof fn lemma_join32(b0: u8, b1: u8, b2: u8, b3: u8)
    ensures
        ({
            let v = b0 * 0x100_0000 + b1 * 0x1_0000 + b2 * 0x100 + b3;
            &&& 0 <= v <= u32::MAX
            &&& v / 0x100_0000 == b0
            &&& (v / 0x1_0000) % 0x100 == b1
            &&& (v / 0x100) % 0x100 == b2
            &&& v % 0x100 == b3
        }),
{
    let v = b0 * 0x100_0000 + b1 * 0x1_0000 + b2 * 0x100 + b3;
    assert(v / 0x100 == b0 * 0x1_0000 + b1 * 0x100 + b2);
    assert(v / 0x1_0000 == b0 * 0x100 + b1);
}

/// Reading back what `be32` wrote gives the number again, and the other way
/// round.
pub proof fn lemma_be32_roundtrip(x: u32, b: Seq<u8>)
    ensures
        from_be32(be32(x)) == x,
        b.len() == 4 ==> be32(from_be32(b)) == b,
{
    lemma_split32(x);
    if b.len() == 4 {
        lemma_join32(b[0], b[1], b[2], b[3]);
        assert(be32(from_be32(b)) =~= b);
    }
}

/// Reading back what `be16` wrote gives the number again, and the other way
/// round.
pub proof fn lemma_be16_roundtrip(x: u16, b: Seq<u8>)
    ensures
        from_be16(be16(x)) == x,
        b.len() == 2 ==> be16(from_be16(b)) == b,
{
    if b.len() == 2 {
        assert(be16(from_be16(b)) =~= b);
    }
}

/// Appends the four big-endian bytes of `x`.
pub fn push_be32(out: &mut Vec<u8>, x: u32)
    ensures
        final(out)@ == old(out)@ + be32(x),
{
    out.push((x / 0x100_0000) as u8);
    out.push(((x / 0x1_0000) % 0x100) as u8);
    out.push(((x / 0x100) % 0x100) as u8);
    out.push((x % 0x100) as u8);
    assert(out@ =~= old(out)@ + be32(x));
}

/// Reads the big-endian number at `at`.
pub fn read_be32(bytes: &[u8], at: usize) -> (x: u32)
    requires
        at + 4 <= bytes.len(),
    ensures
        x == from_be32(bytes@.subrange(at as int, at + 4)),
{
    let x = (bytes[at] as u32) * 0x100_0000 + (bytes[at + 1] as u32) * 0x1_0000 + (bytes[at
        + 2] as u32) * 0x100 + (bytes[at + 3] as u32);
    x
}

/// Reads the big-endian number at `at`.
pub fn read_be16(bytes: &[u8], at: usize) -> (x: u16)
    requires
        at + 2 <= bytes.len(),
    ensures
        x == from_be16(bytes@.subrange(at as int, at + 2)),
{
    (bytes[at] as u16) * 0x100 + (bytes[at + 1] as u16)
}


/// The `N` bytes of `bytes` from `at` on, as an array.
pub fn array_from<const N: usize>(bytes: &[u8], at: usize) -> (a: [u8; N])
    requires
        at + N <= bytes.len(),
    ensures
        a@ == bytes@.subrange(at as int, at + N),
{
    let mut a = [0u8;N];
    let mut i: usize = 0;
    while i < N
        invariant
            i <= N,
            at + N <= bytes.len(),
            forall|j: int| 0 <= j < i ==> a@[j] == bytes@[at + j],
        decreases N - i,
    {
        a[i] = bytes[at + i];
        i += 1;
    }
    assert(a@ =~= bytes@.subrange(at as int, at + N));
    a
}

} // verus!
