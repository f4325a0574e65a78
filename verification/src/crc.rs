//! CRC-32 as an injected dependency.
//!
//! On the device the implementation is the firmware's own, so the values
//! written are computed by the same code that will later validate them.
//! [`SoftCrc32`] exists so that tests and tooling can run the identical
//! logic elsewhere.

use vstd::prelude::*;

verus! {

/// The generator polynomial of CRC-32/ISO-HDLC, bit-reversed.
pub const POLYNOMIAL: u32 = 0xEDB8_8320;

/// One bit of polynomial division.
pub open spec fn crc_bit(crc: u32) -> u32 {
    if crc & 1 == 1 {
        (crc >> 1) ^ POLYNOMIAL
    } else {
        crc >> 1
    }
}

/// `n` bits of polynomial division.
pub open spec fn crc_bits(crc: u32, n: nat) -> u32
    decreases n,
{
    if n == 0 {
        crc
    } else {
        crc_bit(crc_bits(crc, (n - 1) as nat))
    }
}

/// The register after every byte of `data` was fed into it.
pub open spec fn crc_register(data: Seq<u8>) -> u32
    decreases data.len(),
{
    if data.len() == 0 {
        0xFFFF_FFFF
    } else {
        crc_bits(crc_register(data.drop_last()) ^ (data.last() as u32), 8)
    }
}

/// CRC-32/ISO-HDLC of `data`: the checksum UEFI specifies for GPT.
pub open spec fn crc32_of(data: Seq<u8>) -> u32 {
    !crc_register(data)
}

/// CRC-32/ISO-HDLC (the polynomial UEFI specifies for GPT).
pub trait Crc32 {
    fn crc32(&self, data: &[u8]) -> (r: u32)
        ensures
            r == crc32_of(data@),
    ;
}

/// Portable table-free implementation, for host tests and tooling.
#[derive(Clone, Copy, Debug, Default)]
pub struct SoftCrc32;

impl Crc32 for SoftCrc32 {
    fn crc32(&self, data: &[u8]) -> (r: u32) {
        let mut crc: u32 = 0xFFFF_FFFF;
        let mut i: usize = 0;
        while i < data.len()
            invariant
                i <= data.len(),
                crc == crc_register(data@.take(i as int)),
            decreases data.len() - i,
        {
            assert(data@.take(i + 1).drop_last() =~= data@.take(i as int));
            crc = crc ^ (data[i] as u32);
            let ghost start = crc;
            let mut bit: u32 = 0;
            while bit < 8
                invariant
                    bit <= 8,
                    crc == crc_bits(start, bit as nat),
                decreases 8 - bit,
            {
                crc = if crc & 1 == 1 {
                    (crc >> 1) ^ POLYNOMIAL
                } else {
                    crc >> 1
                };
                bit += 1;
            }
            i += 1;
        }
        assert(data@.take(i as int) =~= data@);
        !crc
    }
}

impl<T: Crc32 + ?Sized> Crc32 for &T {
    fn crc32(&self, data: &[u8]) -> (r: u32) {
        (**self).crc32(data)
    }
}

/// Division loses nothing: the polynomial's top bit tells the two ways a bit
/// can go apart.
proof fn crc_bits_tell_apart(a: u32, b: u32, n: nat)
    requires
        a != b,
    ensures
        crc_bits(a, n) != crc_bits(b, n),
    decreases n,
{
    if n > 0 {
        crc_bits_tell_apart(a, b, (n - 1) as nat);
        let x = crc_bits(a, (n - 1) as nat);
        let y = crc_bits(b, (n - 1) as nat);
        assert((if x & 1 == 1 {
            (x >> 1) ^ 0xEDB8_8320u32
        } else {
            x >> 1
        }) != (if y & 1 == 1 {
            (y >> 1) ^ 0xEDB8_8320u32
        } else {
            y >> 1
        })) by (bit_vector)
            requires
                x != y,
        ;
    }
}

proof fn registers_tell_apart(data: Seq<u8>, k: int, v: u8)
    requires
        0 <= k < data.len(),
        v != data[k],
    ensures
        crc_register(data.update(k, v)) != crc_register(data),
    decreases data.len(),
{
    let changed = data.update(k, v);
    let (r, s) = (crc_register(data.drop_last()), crc_register(changed.drop_last()));
    let (x, y) = (data.last() as u32, changed.last() as u32);
    if k == data.len() - 1 {
        assert(changed.drop_last() =~= data.drop_last());
    } else {
        registers_tell_apart(data.drop_last(), k, v);
        assert(changed.drop_last() =~= data.drop_last().update(k, v));
    }
    assert(r ^ x != s ^ y) by (bit_vector)
        requires
            (r == s && x != y) || (r != s && x == y),
    ;
    crc_bits_tell_apart(r ^ x, s ^ y, 8);
}

/// One damaged byte, in one bit or in several, never leaves the checksum as
/// it was.
pub proof fn damage_changes_the_checksum(data: Seq<u8>, k: int, v: u8)
    requires
        0 <= k < data.len(),
        v != data[k],
    ensures
        crc32_of(data.update(k, v)) != crc32_of(data),
{
    registers_tell_apart(data, k, v);
    let (x, y) = (crc_register(data.update(k, v)), crc_register(data));
    assert(!x != !y) by (bit_vector)
        requires
            x != y,
    ;
}

} // verus!
