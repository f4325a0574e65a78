//! Little-endian integers in byte buffers.

use vstd::prelude::*;

verus! {

// -------------------------------------------------------------- the format

/// The little-endian `u16` at `off`.
#[verifier::opaque]
pub open spec fn le16(b: Seq<u8>, off: int) -> u16 {
    (b[off] + 0x100 * b[off + 1]) as u16
}

/// The little-endian `u32` at `off`.
#[verifier::opaque]
pub open spec fn le32(b: Seq<u8>, off: int) -> u32 {
    (le16(b, off) + 0x1_0000 * le16(b, off + 2)) as u32
}

/// The little-endian `u64` at `off`.
#[verifier::opaque]
pub open spec fn le64(b: Seq<u8>, off: int) -> u64 {
    (le32(b, off) + 0x1_0000_0000 * le32(b, off + 4)) as u64
}

/// `v` as two little-endian bytes.
pub open spec fn bytes16(v: u16) -> Seq<u8> {
    seq![(v % 0x100) as u8, (v / 0x100) as u8]
}

/// `v` as four little-endian bytes.
pub open spec fn bytes32(v: u32) -> Seq<u8> {
    bytes16((v % 0x1_0000) as u16) + bytes16((v / 0x1_0000) as u16)
}

/// `v` as eight little-endian bytes.
pub open spec fn bytes64(v: u64) -> Seq<u8> {
    bytes32((v % 0x1_0000_0000) as u32) + bytes32((v / 0x1_0000_0000) as u32)
}

/// `n` zero bytes.
pub open spec fn zeros(n: nat) -> Seq<u8> {
    Seq::new(n, |i: int| 0u8)
}

/// Reading a `u16` back gives what was written.
pub proof fn le16_reads_bytes16(b: Seq<u8>, off: int, v: u16)
    requires
        0 <= off,
        off + 2 <= b.len(),
        b.subrange(off, off + 2) == bytes16(v),
    ensures
        le16(b, off) == v,
{
    reveal(le16);
    assert(b.subrange(off, off + 2)[0] == b[off]);
    assert(b.subrange(off, off + 2)[1] == b[off + 1]);
}

/// Reading a `u32` back gives what was written.
pub proof fn le32_reads_bytes32(b: Seq<u8>, off: int, v: u32)
    requires
        0 <= off,
        off + 4 <= b.len(),
        b.subrange(off, off + 4) == bytes32(v),
    ensures
        le32(b, off) == v,
{
    let s = b.subrange(off, off + 4);
    assert(s.subrange(0, 2) =~= bytes16((v % 0x1_0000) as u16));
    assert(s.subrange(2, 4) =~= bytes16((v / 0x1_0000) as u16));
    assert(b.subrange(off, off + 2) =~= s.subrange(0, 2));
    assert(b.subrange(off + 2, off + 4) =~= s.subrange(2, 4));
    reveal(le32);
    le16_reads_bytes16(b, off, (v % 0x1_0000) as u16);
    le16_reads_bytes16(b, off + 2, (v / 0x1_0000) as u16);
}

/// Reading a `u64` back gives what was written.
pub proof fn le64_reads_bytes64(b: Seq<u8>, off: int, v: u64)
    requires
        0 <= off,
        off + 8 <= b.len(),
        b.subrange(off, off + 8) == bytes64(v),
    ensures
        le64(b, off) == v,
{
    let s = b.subrange(off, off + 8);
    assert(s.subrange(0, 4) =~= bytes32((v % 0x1_0000_0000) as u32));
    assert(s.subrange(4, 8) =~= bytes32((v / 0x1_0000_0000) as u32));
    assert(b.subrange(off, off + 4) =~= s.subrange(0, 4));
    assert(b.subrange(off + 4, off + 8) =~= s.subrange(4, 8));
    reveal(le64);
    le32_reads_bytes32(b, off, (v % 0x1_0000_0000) as u32);
    le32_reads_bytes32(b, off + 4, (v / 0x1_0000_0000) as u32);
}

/// Writing back a `u16` that was read reproduces its bytes.
pub proof fn bytes16_of_le16(b: Seq<u8>, off: int)
    requires
        0 <= off,
        off + 2 <= b.len(),
    ensures
        bytes16(le16(b, off)) == b.subrange(off, off + 2),
{
    reveal(le16);
    assert(bytes16(le16(b, off)) =~= b.subrange(off, off + 2));
}

/// Writing back a `u32` that was read reproduces its bytes.
pub proof fn bytes32_of_le32(b: Seq<u8>, off: int)
    requires
        0 <= off,
        off + 4 <= b.len(),
    ensures
        bytes32(le32(b, off)) == b.subrange(off, off + 4),
{
    reveal(le32);
    bytes16_of_le16(b, off);
    bytes16_of_le16(b, off + 2);
    assert(bytes32(le32(b, off)) =~= b.subrange(off, off + 2) + b.subrange(off + 2, off + 4));
    assert(b.subrange(off, off + 4) =~= b.subrange(off, off + 2) + b.subrange(off + 2, off + 4));
}

/// A byte with one bit flipped is another byte.
pub proof fn a_flipped_bit_is_a_change(b: u8, bit: u8)
    requires
        bit < 8,
    ensures
        b ^ (1u8 << bit) != b,
{
    assert(b ^ (1u8 << bit) != b) by (bit_vector)
        requires
            bit < 8,
    ;
}

// ------------------------------------------------------------- reading them

pub(crate) fn rd_u16(b: &[u8], off: usize) -> (r: u16)
    requires
        off + 2 <= b@.len(),
    ensures
        r == le16(b@, off as int),
{
    reveal(le16);
    b[off] as u16 + 0x100 * (b[off + 1] as u16)
}

pub(crate) fn rd_u32(b: &[u8], off: usize) -> (r: u32)
    requires
        off + 4 <= b@.len(),
    ensures
        r == le32(b@, off as int),
{
    reveal(le32);
    assert(b.len() == b@.len());
    rd_u16(b, off) as u32 + 0x1_0000 * (rd_u16(b, off + 2) as u32)
}

pub(crate) fn rd_u64(b: &[u8], off: usize) -> (r: u64)
    requires
        off + 8 <= b@.len(),
    ensures
        r == le64(b@, off as int),
{
    reveal(le64);
    assert(b.len() == b@.len());
    rd_u32(b, off) as u64 + 0x1_0000_0000 * (rd_u32(b, off + 4) as u64)
}

// ------------------------------------------------------------- writing them

pub(crate) fn put_u16(out: &mut Vec<u8>, v: u16)
    ensures
        final(out)@ == old(out)@ + bytes16(v),
{
    out.push((v % 0x100) as u8);
    out.push((v / 0x100) as u8);
    assert(out@ =~= old(out)@ + bytes16(v));
}

pub(crate) fn put_u32(out: &mut Vec<u8>, v: u32)
    ensures
        final(out)@ == old(out)@ + bytes32(v),
{
    put_u16(out, (v % 0x1_0000) as u16);
    put_u16(out, (v / 0x1_0000) as u16);
    assert(out@ =~= old(out)@ + bytes32(v));
}

pub(crate) fn put_u64(out: &mut Vec<u8>, v: u64)
    ensures
        final(out)@ == old(out)@ + bytes64(v),
{
    put_u32(out, (v % 0x1_0000_0000) as u32);
    put_u32(out, (v / 0x1_0000_0000) as u32);
    assert(out@ =~= old(out)@ + bytes64(v));
}

pub(crate) fn put_bytes(out: &mut Vec<u8>, data: &[u8])
    ensures
        final(out)@ == old(out)@ + data@,
{
    let mut i: usize = 0;
    while i < data.len()
        invariant
            i <= data.len(),
            out@ == old(out)@ + data@.take(i as int),
        decreases data.len() - i,
    {
        out.push(data[i]);
        i += 1;
        assert(data@.take(i as int) =~= data@.take(i - 1).push(data@[i - 1]));
    }
    assert(data@.take(i as int) =~= data@);
}

pub(crate) fn put_zeros(out: &mut Vec<u8>, n: usize)
    ensures
        final(out)@ == old(out)@ + zeros(n as nat),
{
    let mut i: usize = 0;
    while i < n
        invariant
            i <= n,
            out@ == old(out)@ + zeros(i as nat),
        decreases n - i,
    {
        out.push(0);
        i += 1;
        assert(zeros(i as nat) =~= zeros((i - 1) as nat).push(0));
    }
}

/// An owned copy of `data[from..to]`.
pub(crate) fn copied(data: &[u8], from: usize, to: usize) -> (r: Vec<u8>)
    requires
        from <= to <= data@.len(),
    ensures
        r@ == data@.subrange(from as int, to as int),
{
    let mut out: Vec<u8> = Vec::new();
    let mut i: usize = from;
    while i < to
        invariant
            from <= i <= to,
            to <= data@.len(),
            out@ == data@.subrange(from as int, i as int),
        decreases to - i,
    {
        out.push(data[i]);
        i += 1;
        assert(data@.subrange(from as int, i as int) =~= data@.subrange(from as int, i - 1).push(
            data@[i - 1],
        ));
    }
    out
}

/// Whether two buffers hold the same bytes.
pub(crate) fn same_bytes(a: &[u8], b: &[u8]) -> (r: bool)
    ensures
        r == (a@ == b@),
{
    if a.len() != b.len() {
        return false;
    }
    let mut i: usize = 0;
    while i < a.len()
        invariant
            i <= a.len(),
            a@.len() == b@.len(),
            forall|j: int| 0 <= j < i ==> a@[j] == b@[j],
        decreases a.len() - i,
    {
        if a[i] != b[i] {
            return false;
        }
        i += 1;
    }
    assert(a@ =~= b@);
    true
}


/// Numbers are little-endian: each byte weighs two hundred and fifty-six
/// times the one before it.
pub proof fn numbers_are_little_endian(b: Seq<u8>, off: int)
    ensures
        le16(b, off) == b[off] + 0x100 * b[off + 1],
        le32(b, off) == b[off] + 0x100 * b[off + 1] + 0x1_0000 * b[off + 2] + 0x100_0000 * b[off
            + 3],
        le64(b, off) == b[off] + 0x100 * b[off + 1] + 0x1_0000 * b[off + 2] + 0x100_0000 * b[off
            + 3] + 0x1_0000_0000 * b[off + 4] + 0x100_0000_0000 * b[off + 5] + 0x1_0000_0000_0000
            * b[off + 6] + 0x100_0000_0000_0000 * b[off + 7],
{
    reveal(le16);
    reveal(le32);
    reveal(le64);
    assert(off + 2 + 1 == off + 3);
    assert(off + 4 + 1 == off + 5);
    assert(off + 4 + 2 == off + 6);
    assert(off + 4 + 2 + 1 == off + 7);
}

} // verus!
