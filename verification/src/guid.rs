//! GUIDs as they appear on disk: 16 bytes, mixed-endian.
//!
//! The first three fields are stored little-endian, the last two as raw
//! bytes. That is why the byte order in a hexdump does not match the
//! textual form.

use crate::bytes::{bytes16, bytes32, le16, le32, rd_u16, rd_u32, zeros};
use crate::text::{hex, hex_text};
use vstd::prelude::*;

verus! {

#[derive(Clone, Copy, PartialEq, Eq, Default, Hash, Debug)]
pub struct Guid(pub [u8; 16]);

/// Two upper-case hexadecimal digits per byte.
pub open spec fn hex_bytes(b: Seq<u8>) -> Seq<char>
    decreases b.len(),
{
    if b.len() == 0 {
        Seq::empty()
    } else {
        hex_bytes(b.drop_last()) + hex(b.last() as nat, 2, true)
    }
}

/// The canonical textual form, `C12A7328-F81F-11D2-BA4B-00A0C93EC93B`.
pub open spec fn guid_text(b: Seq<u8>) -> Seq<char> {
    hex(le32(b, 0) as nat, 8, true) + "-"@ + hex(le16(b, 4) as nat, 4, true) + "-"@ + hex(
        le16(b, 6) as nat,
        4,
        true,
    ) + "-"@ + hex(b[8] as nat, 2, true) + hex(b[9] as nat, 2, true) + "-"@ + hex_bytes(
        b.subrange(10, 16),
    )
}

impl Guid {
    /// The all-zero GUID, which marks an unused partition entry.
    pub fn nil() -> (r: Self)
        ensures
            r.zero(),
    {
        let r = Guid([0, 0, 0, 0, 0, 0, 0, 0, 0, 0, 0, 0, 0, 0, 0, 0]);
        assert(r.0@ =~= zeros(16));
        r
    }

    /// Build from the canonical textual grouping, e.g.
    /// `C12A7328-F81F-11D2-BA4B-00A0C93EC93B` becomes
    /// `from_fields(0xC12A7328, 0xF81F, 0x11D2, [0xBA, 0x4B, ...])`.
    pub fn from_fields(d1: u32, d2: u16, d3: u16, d4: [u8; 8]) -> (r: Self)
        ensures
            r.0@ == bytes32(d1) + bytes16(d2) + bytes16(d3) + d4@,
    {
        let lo: u16 = (d1 % 0x1_0000) as u16;
        let hi: u16 = (d1 / 0x1_0000) as u16;
        let r = Guid(
            [
                (lo % 0x100) as u8,
                (lo / 0x100) as u8,
                (hi % 0x100) as u8,
                (hi / 0x100) as u8,
                (d2 % 0x100) as u8,
                (d2 / 0x100) as u8,
                (d3 % 0x100) as u8,
                (d3 / 0x100) as u8,
                d4[0],
                d4[1],
                d4[2],
                d4[3],
                d4[4],
                d4[5],
                d4[6],
                d4[7],
            ],
        );
        assert(r.0@ =~= bytes32(d1) + bytes16(d2) + bytes16(d3) + d4@);
        r
    }

    /// True if every byte is zero.
    pub open spec fn zero(self) -> bool {
        self.0@ == zeros(16)
    }

    pub fn is_zero(&self) -> (r: bool)
        ensures
            r == self.zero(),
    {
        let mut i: usize = 0;
        while i < 16
            invariant
                i <= 16,
                forall|j: int| 0 <= j < i ==> self.0@[j] == 0,
            decreases 16 - i,
        {
            if self.0[i] != 0 {
                assert(zeros(16)[i as int] == 0);
                return false;
            }
            i += 1;
        }
        assert(self.0@ =~= zeros(16));
        true
    }

    pub fn as_bytes(&self) -> (r: &[u8; 16])
        ensures
            r == self.0,
    {
        &self.0
    }

    /// Whether two GUIDs are the same one.
    pub(crate) fn same(&self, other: &Guid) -> (r: bool)
        ensures
            r == (*self == *other),
    {
        let mut i: usize = 0;
        while i < 16
            invariant
                i <= 16,
                forall|j: int| 0 <= j < i ==> self.0@[j] == other.0@[j],
            decreases 16 - i,
        {
            if self.0[i] != other.0[i] {
                return false;
            }
            i += 1;
        }
        assert(self.0 =~= other.0);
        true
    }

    /// Read from a buffer. Returns `None` if fewer than 16 bytes remain.
    pub fn read_from(buf: &[u8], offset: usize) -> (r: Option<Self>)
        ensures
            r is Some == (offset + 16 <= buf@.len()),
            r matches Some(g) ==> g.0@ == buf@.subrange(offset as int, offset + 16),
    {
        if buf.len() < 16 || offset > buf.len() - 16 {
            return None;
        }
        let r = Guid(
            [
                buf[offset],
                buf[offset + 1],
                buf[offset + 2],
                buf[offset + 3],
                buf[offset + 4],
                buf[offset + 5],
                buf[offset + 6],
                buf[offset + 7],
                buf[offset + 8],
                buf[offset + 9],
                buf[offset + 10],
                buf[offset + 11],
                buf[offset + 12],
                buf[offset + 13],
                buf[offset + 14],
                buf[offset + 15],
            ],
        );
        assert(r.0@ =~= buf@.subrange(offset as int, offset + 16));
        Some(r)
    }

    /// The canonical textual form.
    pub fn to_text(&self) -> (r: String)
        ensures
            r@ == guid_text(self.0@),
    {
        let b = self.0.as_slice();
        let mut s = hex_text(rd_u32(b, 0) as u64, 8, true);
        s.push_str("-");
        s.push_str(hex_text(rd_u16(b, 4) as u64, 4, true).as_str());
        s.push_str("-");
        s.push_str(hex_text(rd_u16(b, 6) as u64, 4, true).as_str());
        s.push_str("-");
        s.push_str(hex_text(b[8] as u64, 2, true).as_str());
        s.push_str(hex_text(b[9] as u64, 2, true).as_str());
        s.push_str("-");
        let ghost head = s@;
        let mut i: usize = 10;
        while i < 16
            invariant
                10 <= i <= 16,
                b@.len() == 16,
                s@ == head + hex_bytes(b@.subrange(10, i as int)),
            decreases 16 - i,
        {
            s.push_str(hex_text(b[i] as u64, 2, true).as_str());
            i += 1;
            assert(b@.subrange(10, i as int).drop_last() =~= b@.subrange(10, i - 1));
            assert(s@ =~= head + hex_bytes(b@.subrange(10, i as int)));
        }
        s
    }
}

} // verus!
