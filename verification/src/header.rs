//! The GPT header: parse, validate, re-serialize.
//!
//! Nothing here trusts the bytes it is handed. Every field that is later
//! used as a length or an offset is range-checked first, because the whole
//! point of this library is to run against a header that is known to be
//! damaged.

use crate::bytes::{
    bytes32, bytes64, copied, le32, le32_reads_bytes32, le64, le64_reads_bytes64, put_bytes,
    put_u32, put_u64, put_zeros, rd_u32, rd_u64, zeros,
};
use crate::crc::{crc32_of, Crc32};
use crate::guid::Guid;
use crate::text::{dec, dec_text, hex, hex_text};
use vstd::prelude::*;

verus! {

/// "EFI PART" read as a little-endian u64.
pub const GPT_SIGNATURE: u64 = 0x5452_4150_2049_4645;

pub const GPT_REVISION_1_0: u32 = 0x0001_0000;

/// The least a header can declare. Headers may declare more, up to one
/// block.
pub const HEADER_MIN_SIZE: u32 = 92;

/// An upper bound on the entry array, so a corrupt count cannot make us
/// try to read gigabytes. 128 entries is conventional; firmware has to
/// support at least 16 KiB of entry array.
pub const MAX_ENTRY_COUNT: u32 = 8192;

#[derive(Clone, Copy, PartialEq, Eq, Debug)]
pub struct GptHeader {
    pub signature: u64,
    pub revision: u32,
    pub header_size: u32,
    pub header_crc32: u32,
    pub reserved: u32,
    pub my_lba: u64,
    pub alternate_lba: u64,
    pub first_usable_lba: u64,
    pub last_usable_lba: u64,
    pub disk_guid: Guid,
    pub partition_entry_lba: u64,
    pub number_of_partition_entries: u32,
    pub size_of_partition_entry: u32,
    pub partition_entry_array_crc32: u32,
}

/// Everything that can be wrong with a header. Collected rather than
/// short-circuited so the report can show the operator the full picture.
#[derive(Clone, Copy, PartialEq, Eq, Structural, Debug)]
#[allow(inconsistent_fields)]
pub enum Defect {
    BadSignature { found: u64 },
    BadRevision { found: u32 },
    HeaderSizeOutOfRange { found: u32, block_size: u32 },
    ReservedNonZero { found: u32 },
    HeaderCrcMismatch { stored: u32, computed: u32 },
    MyLbaMismatch { stored: u64, read_from: u64 },
    AlternateLbaOutOfRange { stored: u64, last_block: u64 },
    /// The pointer lies on the disk but not at the other header: a main
    /// header has to name the last block, a secondary one LBA 1.
    AlternateLbaWrongForRole { stored: u64, expected: u64 },
    EntrySizeInvalid { found: u32 },
    EntryCountOutOfRange { found: u32 },
    EntryArrayCrcMismatch { stored: u32, computed: u32 },
    UsableRangeInvalid { first: u64, last: u64, last_block: u64 },
    EntryArrayOutOfRange { entry_lba: u64, blocks: u64, last_block: u64 },
    /// The main entry array must start at LBA 2. Observed in the wild
    /// at 2016 (FirstUsableLBA - 32) with a correctly recomputed header
    /// CRC, so nothing but this check and the array CRC catches it.
    MainEntryLbaNotTwo { found: u64 },
}

/// `0x` and eight digits.
pub open spec fn word(v: u32) -> Seq<char> {
    "0x"@ + hex(v as nat, 8, false)
}

/// `0x` and sixteen digits.
pub open spec fn quad(v: u64) -> Seq<char> {
    "0x"@ + hex(v as nat, 16, false)
}

pub(crate) fn word_text(v: u32) -> (r: String)
    ensures
        r@ == word(v),
{
    let mut s = "0x".to_owned();
    s.push_str(hex_text(v as u64, 8, false).as_str());
    s
}

pub(crate) fn quad_text(v: u64) -> (r: String)
    ensures
        r@ == quad(v),
{
    let mut s = "0x".to_owned();
    s.push_str(hex_text(v, 16, false).as_str());
    s
}

impl Defect {
    /// What the operator is told.
    pub open spec fn message(self) -> Seq<char> {
        match self {
            Defect::BadSignature { found } => "signature is "@ + quad(found)
                + ", expected \"EFI PART\""@,
            Defect::BadRevision { found } => "revision is "@ + word(found)
                + ", expected 0x00010000"@,
            Defect::HeaderSizeOutOfRange { found, block_size } => "HeaderSize is "@ + dec(
                found as nat,
            ) + ", must be "@ + dec(HEADER_MIN_SIZE as nat) + "..="@ + dec(block_size as nat),
            Defect::ReservedNonZero { found } => "reserved field is "@ + word(found)
                + ", must be zero"@,
            Defect::HeaderCrcMismatch { stored, computed } => "header CRC32 is "@ + word(stored)
                + ", recomputes to "@ + word(computed),
            Defect::MyLbaMismatch { stored, read_from } => "MyLBA says "@ + dec(stored as nat)
                + " but this header was read from LBA "@ + dec(read_from as nat),
            Defect::AlternateLbaOutOfRange { stored, last_block } => "AlternateLBA "@ + dec(
                stored as nat,
            ) + " is outside the disk (last block "@ + dec(last_block as nat) + ")"@,
            Defect::AlternateLbaWrongForRole { stored, expected } => "AlternateLBA is "@ + dec(
                stored as nat,
            ) + ", must be "@ + dec(expected as nat),
            Defect::EntrySizeInvalid { found } => "SizeOfPartitionEntry is "@ + dec(found as nat)
                + ", must be a multiple of 8 and at least 128"@,
            Defect::EntryCountOutOfRange { found } => "NumberOfPartitionEntries is "@ + dec(
                found as nat,
            ) + ", must be 1..="@ + dec(MAX_ENTRY_COUNT as nat),
            Defect::EntryArrayCrcMismatch { stored, computed } => "entry array CRC32 is "@ + word(
                stored,
            ) + ", recomputes to "@ + word(computed),
            Defect::UsableRangeInvalid { first, last, last_block } => "usable range "@ + dec(
                first as nat,
            ) + "..="@ + dec(last as nat) + " is not sane for a disk whose last block is "@ + dec(
                last_block as nat,
            ),
            Defect::EntryArrayOutOfRange { entry_lba, blocks, last_block } => "entry array at LBA "@
                + dec(entry_lba as nat) + " spanning "@ + dec(blocks as nat)
                + " blocks does not fit before block "@ + dec(last_block as nat),
            Defect::MainEntryLbaNotTwo { found } => "main PartitionEntryLBA is "@ + dec(
                found as nat,
            ) + ", must be 2"@,
        }
    }

    /// What the operator is told.
    pub fn to_text(&self) -> (r: String)
        ensures
            r@ == self.message(),
    {
        match *self {
            Defect::BadSignature { found } => {
                let mut s = "signature is ".to_owned();
                s.push_str(quad_text(found).as_str());
                s.push_str(", expected \"EFI PART\"");
                s
            },
            Defect::BadRevision { found } => {
                let mut s = "revision is ".to_owned();
                s.push_str(word_text(found).as_str());
                s.push_str(", expected 0x00010000");
                s
            },
            Defect::HeaderSizeOutOfRange { found, block_size } => {
                let mut s = "HeaderSize is ".to_owned();
                s.push_str(dec_text(found as u64).as_str());
                s.push_str(", must be ");
                s.push_str(dec_text(HEADER_MIN_SIZE as u64).as_str());
                s.push_str("..=");
                s.push_str(dec_text(block_size as u64).as_str());
                s
            },
            Defect::ReservedNonZero { found } => {
                let mut s = "reserved field is ".to_owned();
                s.push_str(word_text(found).as_str());
                s.push_str(", must be zero");
                s
            },
            Defect::HeaderCrcMismatch { stored, computed } => {
                let mut s = "header CRC32 is ".to_owned();
                s.push_str(word_text(stored).as_str());
                s.push_str(", recomputes to ");
                s.push_str(word_text(computed).as_str());
                s
            },
            Defect::MyLbaMismatch { stored, read_from } => {
                let mut s = "MyLBA says ".to_owned();
                s.push_str(dec_text(stored).as_str());
                s.push_str(" but this header was read from LBA ");
                s.push_str(dec_text(read_from).as_str());
                s
            },
            Defect::AlternateLbaOutOfRange { stored, last_block } => {
                let mut s = "AlternateLBA ".to_owned();
                s.push_str(dec_text(stored).as_str());
                s.push_str(" is outside the disk (last block ");
                s.push_str(dec_text(last_block).as_str());
                s.push_str(")");
                s
            },
            Defect::AlternateLbaWrongForRole { stored, expected } => {
                let mut s = "AlternateLBA is ".to_owned();
                s.push_str(dec_text(stored).as_str());
                s.push_str(", must be ");
                s.push_str(dec_text(expected).as_str());
                s
            },
            Defect::EntrySizeInvalid { found } => {
                let mut s = "SizeOfPartitionEntry is ".to_owned();
                s.push_str(dec_text(found as u64).as_str());
                s.push_str(", must be a multiple of 8 and at least 128");
                s
            },
            Defect::EntryCountOutOfRange { found } => {
                let mut s = "NumberOfPartitionEntries is ".to_owned();
                s.push_str(dec_text(found as u64).as_str());
                s.push_str(", must be 1..=");
                s.push_str(dec_text(MAX_ENTRY_COUNT as u64).as_str());
                s
            },
            Defect::EntryArrayCrcMismatch { stored, computed } => {
                let mut s = "entry array CRC32 is ".to_owned();
                s.push_str(word_text(stored).as_str());
                s.push_str(", recomputes to ");
                s.push_str(word_text(computed).as_str());
                s
            },
            Defect::UsableRangeInvalid { first, last, last_block } => {
                let mut s = "usable range ".to_owned();
                s.push_str(dec_text(first).as_str());
                s.push_str("..=");
                s.push_str(dec_text(last).as_str());
                s.push_str(" is not sane for a disk whose last block is ");
                s.push_str(dec_text(last_block).as_str());
                s
            },
            Defect::EntryArrayOutOfRange { entry_lba, blocks, last_block } => {
                let mut s = "entry array at LBA ".to_owned();
                s.push_str(dec_text(entry_lba).as_str());
                s.push_str(" spanning ");
                s.push_str(dec_text(blocks).as_str());
                s.push_str(" blocks does not fit before block ");
                s.push_str(dec_text(last_block).as_str());
                s
            },
            Defect::MainEntryLbaNotTwo { found } => {
                let mut s = "main PartitionEntryLBA is ".to_owned();
                s.push_str(dec_text(found).as_str());
                s.push_str(", must be 2");
                s
            },
        }
    }
}

/// `d` alone if it applies, nothing otherwise.
#[verifier::opaque]
pub open spec fn flagged(applies: bool, d: Defect) -> Seq<Defect> {
    if applies {
        seq![d]
    } else {
        Seq::empty()
    }
}

fn flag(out: &mut Vec<Defect>, applies: bool, d: Defect)
    ensures
        final(out)@ == old(out)@ + flagged(applies, d),
{
    reveal(flagged);
    if applies {
        out.push(d);
    }
    assert(out@ =~= old(out)@ + flagged(applies, d));
}

/// Where each part of a concatenation ends up.
proof fn nine_parts(
    a: Seq<u8>,
    b: Seq<u8>,
    c: Seq<u8>,
    d: Seq<u8>,
    e: Seq<u8>,
    f: Seq<u8>,
    g: Seq<u8>,
    h: Seq<u8>,
    i: Seq<u8>,
    rest: Seq<u8>,
)
    requires
        a.len() == 8,
        b.len() == 4,
        c.len() == 4,
        d.len() == 4,
        e.len() == 4,
        f.len() == 8,
        g.len() == 8,
        h.len() == 8,
        i.len() == 8,
    ensures
        ({
            let s = a + b + c + d + e + f + g + h + i + rest;
            &&& s.subrange(0, 8) == a
            &&& s.subrange(8, 12) == b
            &&& s.subrange(12, 16) == c
            &&& s.subrange(16, 20) == d
            &&& s.subrange(20, 24) == e
            &&& s.subrange(24, 32) == f
            &&& s.subrange(32, 40) == g
            &&& s.subrange(40, 48) == h
            &&& s.subrange(48, 56) == i
        }),
{
    let left = a + b + c + d + e;
    let mid = left + f + g;
    let s = mid + h + i + rest;
    assert(left.subrange(0, 8) =~= a);
    assert(left.subrange(8, 12) =~= b);
    assert(left.subrange(12, 16) =~= c);
    assert(left.subrange(16, 20) =~= d);
    assert(left.subrange(20, 24) =~= e);
    assert(s.subrange(0, 24) =~= left);
    assert(s.subrange(0, 8) =~= s.subrange(0, 24).subrange(0, 8));
    assert(s.subrange(8, 12) =~= s.subrange(0, 24).subrange(8, 12));
    assert(s.subrange(12, 16) =~= s.subrange(0, 24).subrange(12, 16));
    assert(s.subrange(16, 20) =~= s.subrange(0, 24).subrange(16, 20));
    assert(s.subrange(20, 24) =~= s.subrange(0, 24).subrange(20, 24));
    assert(s.subrange(24, 32) =~= f);
    assert(s.subrange(32, 40) =~= g);
    assert(s.subrange(40, 48) =~= h);
    assert(s.subrange(48, 56) =~= i);
}

/// The first `size` bytes of a header block, with the CRC field zeroed.
pub open spec fn crc_input(raw: Seq<u8>, size: int) -> Seq<u8> {
    raw.take(16) + zeros(4) + raw.subrange(20, size)
}

impl GptHeader {
    /// This is the header the bytes `b` hold.
    pub open spec fn parsed_from(self, b: Seq<u8>) -> bool {
        &&& self.signature == le64(b, 0)
        &&& self.revision == le32(b, 8)
        &&& self.header_size == le32(b, 12)
        &&& self.header_crc32 == le32(b, 16)
        &&& self.reserved == le32(b, 20)
        &&& self.my_lba == le64(b, 24)
        &&& self.alternate_lba == le64(b, 32)
        &&& self.first_usable_lba == le64(b, 40)
        &&& self.last_usable_lba == le64(b, 48)
        &&& self.disk_guid.0@ == b.subrange(56, 72)
        &&& self.partition_entry_lba == le64(b, 72)
        &&& self.number_of_partition_entries == le32(b, 80)
        &&& self.size_of_partition_entry == le32(b, 84)
        &&& self.partition_entry_array_crc32 == le32(b, 88)
    }

    /// Only one header is held by given bytes.
    pub proof fn parsed_from_is_unique(self, other: GptHeader, b: Seq<u8>)
        requires
            self.parsed_from(b),
            other.parsed_from(b),
        ensures
            self == other,
    {
        assert(self.disk_guid.0 =~= other.disk_guid.0);
    }

    /// The header the bytes `b` hold.
    pub open spec fn in_bytes(b: Seq<u8>) -> GptHeader {
        choose|h: GptHeader| h.parsed_from(b)
    }

    /// A header parsed from `b` is the header in `b`.
    pub proof fn parsed_is_in_bytes(self, b: Seq<u8>)
        requires
            self.parsed_from(b),
        ensures
            self == GptHeader::in_bytes(b),
    {
        self.parsed_from_is_unique(GptHeader::in_bytes(b), b);
    }

    /// Decode the fixed 92-byte prefix.
    ///
    /// This never fails on content: a header full of garbage still parses,
    /// because [`validate`](GptHeader::validate) is what decides whether the
    /// content is usable. It only fails if the buffer is too short.
    pub fn parse(buf: &[u8]) -> (r: Option<Self>)
        ensures
            r is Some == (buf@.len() >= HEADER_MIN_SIZE),
            r matches Some(h) ==> h.parsed_from(buf@),
    {
        if buf.len() < HEADER_MIN_SIZE as usize {
            return None;
        }
        let disk_guid = Guid::read_from(buf, 56)?;
        Some(
            GptHeader {
                signature: rd_u64(buf, 0),
                revision: rd_u32(buf, 8),
                header_size: rd_u32(buf, 12),
                header_crc32: rd_u32(buf, 16),
                reserved: rd_u32(buf, 20),
                my_lba: rd_u64(buf, 24),
                alternate_lba: rd_u64(buf, 32),
                first_usable_lba: rd_u64(buf, 40),
                last_usable_lba: rd_u64(buf, 48),
                disk_guid,
                partition_entry_lba: rd_u64(buf, 72),
                number_of_partition_entries: rd_u32(buf, 80),
                size_of_partition_entry: rd_u32(buf, 84),
                partition_entry_array_crc32: rd_u32(buf, 88),
            },
        )
    }

    /// Between one and [`MAX_ENTRY_COUNT`] entries are declared.
    pub open spec fn count_ok(self) -> bool {
        1 <= self.number_of_partition_entries <= MAX_ENTRY_COUNT
    }

    /// Entries are at least 128 bytes and a multiple of 8.
    pub open spec fn stride_ok(self) -> bool {
        self.size_of_partition_entry >= 128 && self.size_of_partition_entry % 8 == 0
    }

    /// Byte length of the entry array the header declares.
    pub open spec fn array_len(self) -> Option<usize> {
        if self.count_ok() && self.stride_ok() && self.number_of_partition_entries
            * self.size_of_partition_entry <= usize::MAX {
            Some((self.number_of_partition_entries * self.size_of_partition_entry) as usize)
        } else {
            None
        }
    }

    /// How many blocks the entry array occupies, rounded up.
    pub open spec fn array_blocks(self, block_size: u32) -> Option<u64> {
        match self.array_len() {
            Some(len) if block_size > 0 => Some(
                ((len + block_size - 1) / block_size as int) as u64,
            ),
            _ => None,
        }
    }

    /// The blocks an entry array occupies are enough to hold it, and no
    /// more than its length rounded up to a whole block.
    pub proof fn array_blocks_cover(self, block_size: u32)
        requires
            self.array_blocks(block_size) is Some,
        ensures
            self.array_len() is Some,
            self.array_len()->0 <= self.array_blocks(block_size)->0 * block_size,
            self.array_blocks(block_size)->0 * block_size < self.array_len()->0 + block_size,
            1 <= self.array_blocks(block_size)->0 <= self.array_len()->0,
            128 <= self.array_len()->0 <= 8192 * 0xFFFF_FFFF,
    {
        let len = self.array_len()->0 as int;
        let bs = block_size as int;
        let n = self.number_of_partition_entries as int;
        let s = self.size_of_partition_entry as int;
        assert(128 <= n * s <= 8192 * 0xFFFF_FFFF) by (nonlinear_arith)
            requires
                1 <= n <= 8192,
                128 <= s <= 0xFFFF_FFFF,
        ;
        let q = (len + bs - 1) / bs;
        assert(len <= q * bs && q * bs < len + bs && 1 <= q && q <= len) by (nonlinear_arith)
            requires
                len >= 1,
                bs >= 1,
                q == (len + bs - 1) / bs,
        ;
    }

    /// Byte length of the entry array, or `None` if the declared geometry
    /// overflows or exceeds [`MAX_ENTRY_COUNT`].
    pub fn entry_array_len(&self) -> (r: Option<usize>)
        ensures
            r == self.array_len(),
    {
        if self.number_of_partition_entries == 0 || self.number_of_partition_entries
            > MAX_ENTRY_COUNT {
            return None;
        }
        if self.size_of_partition_entry < 128 || self.size_of_partition_entry % 8 != 0 {
            return None;
        }
        (self.number_of_partition_entries as usize).checked_mul(
            self.size_of_partition_entry as usize,
        )
    }

    /// How many blocks the entry array occupies, rounded up.
    ///
    /// `None` for a zero block size: dividing by it would panic, and a panic
    /// in firmware is an unrecoverable hang.
    pub fn entry_array_blocks(&self, block_size: u32) -> (r: Option<u64>)
        ensures
            r == self.array_blocks(block_size),
    {
        if block_size == 0 {
            return None;
        }
        match self.entry_array_len() {
            Some(len) => {
                proof {
                    self.array_blocks_cover(block_size);
                }
                Some((len as u64 + (block_size as u64 - 1)) / block_size as u64)
            },
            None => None,
        }
    }

    /// The entry array lies between LBA 1 and the end of the disk.
    pub open spec fn array_fits(self, blocks: u64, last_block: u64) -> bool {
        &&& self.partition_entry_lba >= 1
        &&& self.partition_entry_lba + blocks <= u64::MAX
        &&& self.partition_entry_lba + blocks <= last_block + 1
    }

    /// Where the other header has to be, for a header read from `read_from`.
    pub open spec fn expected_alternate(read_from: u64, last_block: u64) -> Option<u64> {
        if read_from == 1 {
            Some(last_block)
        } else if read_from == last_block {
            Some(1u64)
        } else {
            None
        }
    }

    /// The pointer to the other header does not lie on the disk.
    pub open spec fn alternate_outside(self, last_block: u64) -> bool {
        self.alternate_lba == 0 || self.alternate_lba > last_block
    }

    /// A pointer that lies on the disk but not at the other header.
    pub open spec fn role_defects(self, read_from: u64, last_block: u64) -> Seq<Defect> {
        match Self::expected_alternate(read_from, last_block) {
            Some(expected) => flagged(
                !self.alternate_outside(last_block) && self.alternate_lba != expected,
                Defect::AlternateLbaWrongForRole { stored: self.alternate_lba, expected },
            ),
            None => Seq::empty(),
        }
    }

    /// An entry array that does not lie on the disk.
    pub open spec fn extent_defects(self, last_block: u64, block_size: u32) -> Seq<Defect> {
        match self.array_blocks(block_size) {
            Some(blocks) => flagged(
                !self.array_fits(blocks, last_block),
                Defect::EntryArrayOutOfRange {
                    entry_lba: self.partition_entry_lba,
                    blocks,
                    last_block,
                },
            ),
            None => Seq::empty(),
        }
    }

    /// The fields describe a table that can be used, the pointer to the other
    /// header aside.
    pub open spec fn sound_fields(self, read_from: u64, last_block: u64, block_size: u32) -> bool {
        &&& self.signature == GPT_SIGNATURE
        &&& self.revision == GPT_REVISION_1_0
        &&& HEADER_MIN_SIZE <= self.header_size <= block_size
        &&& self.reserved == 0
        &&& self.my_lba == read_from
        &&& 1 <= self.alternate_lba <= last_block
        &&& self.stride_ok()
        &&& self.count_ok()
        &&& 2 <= self.first_usable_lba <= self.last_usable_lba <= last_block
        &&& read_from == 1 ==> self.partition_entry_lba == 2
        &&& self.array_blocks(block_size) matches Some(blocks) ==> self.array_fits(
            blocks,
            last_block,
        )
    }

    /// A header passes every check on its fields exactly if they describe a
    /// usable table and it points at the other header.
    #[verifier::rlimit(40)]
    pub proof fn fields_are_clean(self, read_from: u64, last_block: u64, block_size: u32)
        ensures
            self.field_defects(read_from, last_block, block_size).len() == 0 <==> {
                &&& self.sound_fields(read_from, last_block, block_size)
                &&& Self::expected_alternate(read_from, last_block) matches Some(at)
                    ==> self.alternate_lba == at
            },
    {
        let a = flagged(
            self.signature != GPT_SIGNATURE,
            Defect::BadSignature { found: self.signature },
        );
        let b = flagged(
            self.revision != GPT_REVISION_1_0,
            Defect::BadRevision { found: self.revision },
        );
        let c = flagged(
            self.header_size < HEADER_MIN_SIZE || self.header_size > block_size,
            Defect::HeaderSizeOutOfRange { found: self.header_size, block_size },
        );
        let d = flagged(self.reserved != 0, Defect::ReservedNonZero { found: self.reserved });
        let e = flagged(
            self.my_lba != read_from,
            Defect::MyLbaMismatch { stored: self.my_lba, read_from },
        );
        let f = flagged(
            self.alternate_outside(last_block),
            Defect::AlternateLbaOutOfRange { stored: self.alternate_lba, last_block },
        );
        let g = self.role_defects(read_from, last_block);
        let h = flagged(
            !self.stride_ok(),
            Defect::EntrySizeInvalid { found: self.size_of_partition_entry },
        );
        let i = flagged(
            !self.count_ok(),
            Defect::EntryCountOutOfRange { found: self.number_of_partition_entries },
        );
        let j = flagged(
            self.first_usable_lba < 2 || self.last_usable_lba > last_block || self.first_usable_lba
                > self.last_usable_lba,
            Defect::UsableRangeInvalid {
                first: self.first_usable_lba,
                last: self.last_usable_lba,
                last_block,
            },
        );
        let k = flagged(
            read_from == 1 && self.partition_entry_lba != 2,
            Defect::MainEntryLbaNotTwo { found: self.partition_entry_lba },
        );
        let l = self.extent_defects(last_block, block_size);
        let left = a + b + c + d + e + f;
        assert(left.len() == a.len() + b.len() + c.len() + d.len() + e.len() + f.len());
        assert((left + g + h + i + j + k + l).len() == left.len() + g.len() + h.len() + i.len()
            + j.len() + k.len() + l.len());
        reveal(flagged);
    }

    /// A header whose only defects are about the pointer to the other header
    /// is sound in every other field.
    #[verifier::rlimit(40)]
    pub proof fn fields_sound_but_for_pointer(
        self,
        read_from: u64,
        last_block: u64,
        block_size: u32,
    )
        requires
            forall|d: Defect|
                self.field_defects(read_from, last_block, block_size).contains(d)
                    ==> d is AlternateLbaWrongForRole,
        ensures
            self.sound_fields(read_from, last_block, block_size),
    {
        reveal(flagged);
        let role = self.role_defects(read_from, last_block);
        let all = self.field_defects(read_from, last_block, block_size);
        assert(all.len() <= role.len()) by {
            if all.len() > role.len() {
                assert(role.len() <= 1);
                if role.len() == 0 {
                    assert(all.contains(all[0]));
                    assert(!(all[0] is AlternateLbaWrongForRole));
                } else {
                    assert(all.contains(all[0]));
                    assert(all.contains(all[1]));
                    assert(!(all[0] is AlternateLbaWrongForRole) || !(
                    all[1] is AlternateLbaWrongForRole));
                }
            }
        }
    }

    fn check_role(&self, read_from: u64, last_block: u64, out: &mut Vec<Defect>)
        ensures
            final(out)@ == old(out)@ + self.role_defects(read_from, last_block),
    {
        let outside = self.alternate_lba == 0 || self.alternate_lba > last_block;
        if read_from == 1 {
            flag(
                out,
                !outside && self.alternate_lba != last_block,
                Defect::AlternateLbaWrongForRole {
                    stored: self.alternate_lba,
                    expected: last_block,
                },
            );
        } else if read_from == last_block {
            flag(
                out,
                !outside && self.alternate_lba != 1,
                Defect::AlternateLbaWrongForRole { stored: self.alternate_lba, expected: 1 },
            );
        } else {
            assert(out@ =~= old(out)@ + self.role_defects(read_from, last_block));
        }
    }

    fn check_extent(&self, last_block: u64, block_size: u32, out: &mut Vec<Defect>)
        ensures
            final(out)@ == old(out)@ + self.extent_defects(last_block, block_size),
    {
        match self.entry_array_blocks(block_size) {
            Some(blocks) => {
                let fits = self.partition_entry_lba >= 1
                    && match self.partition_entry_lba.checked_add(blocks) {
                    Some(end) => end == 0 || end - 1 <= last_block,
                    None => false,
                };
                flag(
                    out,
                    !fits,
                    Defect::EntryArrayOutOfRange {
                        entry_lba: self.partition_entry_lba,
                        blocks,
                        last_block,
                    },
                );
            },
            None => {
                assert(out@ =~= old(out)@ + self.extent_defects(last_block, block_size));
            },
        }
    }

    /// Everything wrong with the fields themselves, in the order reported.
    pub open spec fn field_defects(
        self,
        read_from: u64,
        last_block: u64,
        block_size: u32,
    ) -> Seq<Defect> {
        flagged(
            self.signature != GPT_SIGNATURE,
            Defect::BadSignature { found: self.signature },
        ) + flagged(
            self.revision != GPT_REVISION_1_0,
            Defect::BadRevision { found: self.revision },
        ) + flagged(
            self.header_size < HEADER_MIN_SIZE || self.header_size > block_size,
            Defect::HeaderSizeOutOfRange { found: self.header_size, block_size },
        ) + flagged(
            self.reserved != 0,
            Defect::ReservedNonZero { found: self.reserved },
        ) + flagged(
            self.my_lba != read_from,
            Defect::MyLbaMismatch { stored: self.my_lba, read_from },
        ) + flagged(
            self.alternate_outside(last_block),
            Defect::AlternateLbaOutOfRange { stored: self.alternate_lba, last_block },
        ) + self.role_defects(read_from, last_block) + flagged(
            !self.stride_ok(),
            Defect::EntrySizeInvalid { found: self.size_of_partition_entry },
        ) + flagged(
            !self.count_ok(),
            Defect::EntryCountOutOfRange { found: self.number_of_partition_entries },
        ) + flagged(
            self.first_usable_lba < 2 || self.last_usable_lba > last_block || self.first_usable_lba
                > self.last_usable_lba,
            Defect::UsableRangeInvalid {
                first: self.first_usable_lba,
                last: self.last_usable_lba,
                last_block,
            },
        ) + flagged(
            read_from == 1 && self.partition_entry_lba != 2,
            Defect::MainEntryLbaNotTwo { found: self.partition_entry_lba },
        ) + self.extent_defects(last_block, block_size)
    }

    /// Structural checks that do not need the header bytes or the entry
    /// array. `read_from` is the LBA this header was actually read from,
    /// which is what makes a swapped or copied header detectable.
    fn validate_fields(&self, read_from: u64, last_block: u64, block_size: u32) -> (r: Vec<Defect>)
        ensures
            r@ == self.field_defects(read_from, last_block, block_size),
    {
        let mut out: Vec<Defect> = Vec::new();
        flag(
            &mut out,
            self.signature != GPT_SIGNATURE,
            Defect::BadSignature { found: self.signature },
        );
        assert(out@ =~= flagged(
            self.signature != GPT_SIGNATURE,
            Defect::BadSignature { found: self.signature },
        ));
        flag(
            &mut out,
            self.revision != GPT_REVISION_1_0,
            Defect::BadRevision { found: self.revision },
        );
        flag(
            &mut out,
            self.header_size < HEADER_MIN_SIZE || self.header_size > block_size,
            Defect::HeaderSizeOutOfRange { found: self.header_size, block_size },
        );
        flag(&mut out, self.reserved != 0, Defect::ReservedNonZero { found: self.reserved });
        flag(
            &mut out,
            self.my_lba != read_from,
            Defect::MyLbaMismatch { stored: self.my_lba, read_from },
        );
        let outside = self.alternate_lba == 0 || self.alternate_lba > last_block;
        flag(
            &mut out,
            outside,
            Defect::AlternateLbaOutOfRange { stored: self.alternate_lba, last_block },
        );
        self.check_role(read_from, last_block, &mut out);
        flag(
            &mut out,
            self.size_of_partition_entry < 128 || self.size_of_partition_entry % 8 != 0,
            Defect::EntrySizeInvalid { found: self.size_of_partition_entry },
        );
        flag(
            &mut out,
            self.number_of_partition_entries == 0 || self.number_of_partition_entries
                > MAX_ENTRY_COUNT,
            Defect::EntryCountOutOfRange { found: self.number_of_partition_entries },
        );
        flag(
            &mut out,
            self.first_usable_lba < 2 || self.last_usable_lba > last_block || self.first_usable_lba
                > self.last_usable_lba,
            Defect::UsableRangeInvalid {
                first: self.first_usable_lba,
                last: self.last_usable_lba,
                last_block,
            },
        );
        // Only the main GPT is pinned to LBA 2; the secondary's array sits
        // just below its header at the end of the disk.
        flag(
            &mut out,
            read_from == 1 && self.partition_entry_lba != 2,
            Defect::MainEntryLbaNotTwo { found: self.partition_entry_lba },
        );
        self.check_extent(last_block, block_size, &mut out);
        out
    }

    /// The checksum the header bytes ought to carry, if its declared size
    /// is a usable length.
    pub open spec fn expected_crc(self, raw: Seq<u8>) -> Option<u32> {
        if HEADER_MIN_SIZE <= self.header_size <= raw.len() {
            Some(crc32_of(crc_input(raw, self.header_size as int)))
        } else {
            None
        }
    }

    /// Recompute the header CRC32 over `header_size` bytes with the CRC
    /// field zeroed.
    ///
    /// Returns `None` if `header_size` is not a usable length for `raw`,
    /// which is why the caller must treat an out-of-range HeaderSize as
    /// fatal before relying on the CRC.
    pub fn compute_header_crc(&self, raw: &[u8], crc: &impl Crc32) -> (r: Option<u32>)
        ensures
            r == self.expected_crc(raw@),
    {
        let size: usize = self.header_size as usize;
        if size < HEADER_MIN_SIZE as usize || size > raw.len() {
            return None;
        }
        let mut scratch = copied(raw, 0, 16);
        put_zeros(&mut scratch, 4);
        put_bytes(&mut scratch, &raw[20..size]);
        assert(raw@.subrange(0, 16) =~= raw@.take(16));
        Some(crc.crc32(scratch.as_slice()))
    }

    /// Everything wrong with a header, in the order reported. `raw` is the
    /// block it came from, `entries` the entry array if it could be read.
    pub open spec fn defects(
        self,
        raw: Seq<u8>,
        entries: Option<Seq<u8>>,
        read_from: u64,
        last_block: u64,
        block_size: u32,
    ) -> Seq<Defect> {
        self.field_defects(read_from, last_block, block_size) + self.crc_defects(raw)
            + self.array_defects(entries)
    }

    /// A header checksum that does not match the bytes.
    pub open spec fn crc_defects(self, raw: Seq<u8>) -> Seq<Defect> {
        match self.expected_crc(raw) {
            Some(computed) => flagged(
                computed != self.header_crc32,
                Defect::HeaderCrcMismatch { stored: self.header_crc32, computed },
            ),
            None => Seq::empty(),
        }
    }

    /// An entry array checksum that does not match the bytes.
    pub open spec fn array_defects(self, entries: Option<Seq<u8>>) -> Seq<Defect> {
        match (entries, self.array_len()) {
            (Some(e), Some(len)) if e.len() >= len => flagged(
                crc32_of(e.take(len as int)) != self.partition_entry_array_crc32,
                Defect::EntryArrayCrcMismatch {
                    stored: self.partition_entry_array_crc32,
                    computed: crc32_of(e.take(len as int)),
                },
            ),
            _ => Seq::empty(),
        }
    }

    /// Full validation. `raw` is the block the header came from, `entries`
    /// the entry array bytes if they could be read.
    pub fn validate(
        &self,
        raw: &[u8],
        entries: Option<&[u8]>,
        read_from: u64,
        last_block: u64,
        block_size: u32,
        crc: &impl Crc32,
    ) -> (r: Vec<Defect>)
        ensures
            r@ == self.defects(
                raw@,
                match entries {
                    Some(e) => Some(e@),
                    None => None,
                },
                read_from,
                last_block,
                block_size,
            ),
    {
        let mut out = self.validate_fields(read_from, last_block, block_size);
        match self.compute_header_crc(raw, crc) {
            Some(computed) => flag(
                &mut out,
                computed != self.header_crc32,
                Defect::HeaderCrcMismatch { stored: self.header_crc32, computed },
            ),
            // A HeaderSize we cannot use was already reported as a defect.
            None => {
                assert(out@ =~= out@ + Seq::<Defect>::empty());
            },
        }
        let mut checked = false;
        if let Some(bytes) = entries {
            if let Some(len) = self.entry_array_len() {
                if bytes.len() >= len {
                    let computed: u32 = crc.crc32(&bytes[0..len]);
                    assert(bytes@.subrange(0, len as int) =~= bytes@.take(len as int));
                    flag(
                        &mut out,
                        computed != self.partition_entry_array_crc32,
                        Defect::EntryArrayCrcMismatch {
                            stored: self.partition_entry_array_crc32,
                            computed,
                        },
                    );
                    checked = true;
                }
            }
        }
        if !checked {
            assert(out@ =~= out@ + Seq::<Defect>::empty());
        }
        out
    }

    /// The size a header is written with: what it declares, kept between
    /// the minimum and one block.
    pub open spec fn written_size(self, block_size: u32) -> u32 {
        let cap = if block_size >= HEADER_MIN_SIZE {
            block_size
        } else {
            HEADER_MIN_SIZE
        };
        let wanted = if self.header_size >= HEADER_MIN_SIZE {
            self.header_size
        } else {
            HEADER_MIN_SIZE
        };
        if wanted <= cap {
            wanted
        } else {
            cap
        }
    }

    /// The fixed fields as they are written, with `crc` in the CRC field.
    #[verifier::opaque]
    pub open spec fn fixed_bytes(self, size: u32, crc: u32) -> Seq<u8> {
        self.front_bytes(size, crc) + self.disk_guid.0@ + self.back_bytes()
    }

    /// The fields before the disk GUID.
    pub open spec fn front_bytes(self, size: u32, crc: u32) -> Seq<u8> {
        bytes64(self.signature) + bytes32(self.revision) + bytes32(size) + bytes32(crc) + bytes32(0)
            + bytes64(self.my_lba) + bytes64(self.alternate_lba) + bytes64(self.first_usable_lba)
            + bytes64(self.last_usable_lba)
    }

    /// The fields after the disk GUID.
    pub open spec fn back_bytes(self) -> Seq<u8> {
        bytes64(self.partition_entry_lba) + bytes32(self.number_of_partition_entries) + bytes32(
            self.size_of_partition_entry,
        ) + bytes32(self.partition_entry_array_crc32)
    }

    /// The block a header is written as: its fields, then zeros.
    pub open spec fn block_bytes(self, block_size: u32) -> Seq<u8> {
        let size = self.written_size(block_size);
        let pad = zeros(
            (if block_size >= size {
                block_size - HEADER_MIN_SIZE
            } else {
                size - HEADER_MIN_SIZE
            }) as nat,
        );
        let crc = crc32_of((self.fixed_bytes(size, 0) + pad).take(size as int));
        self.fixed_bytes(size, crc) + pad
    }

    /// The fixed fields take 92 bytes.
    proof fn fixed_bytes_len(self, size: u32, crc: u32)
        ensures
            self.fixed_bytes(size, crc).len() == HEADER_MIN_SIZE,
    {
        reveal(GptHeader::fixed_bytes);
    }

    /// Every field can be read back from where it was written.
    proof fn fixed_bytes_read_back(self, size: u32, crc: u32, rest: Seq<u8>)
        ensures
            ({
                let b = self.fixed_bytes(size, crc) + rest;
                &&& le64(b, 0) == self.signature
                &&& le32(b, 8) == self.revision
                &&& le32(b, 12) == size
                &&& le32(b, 16) == crc
                &&& le32(b, 20) == 0
                &&& le64(b, 24) == self.my_lba
                &&& le64(b, 32) == self.alternate_lba
                &&& le64(b, 40) == self.first_usable_lba
                &&& le64(b, 48) == self.last_usable_lba
                &&& b.subrange(56, 72) == self.disk_guid.0@
                &&& le64(b, 72) == self.partition_entry_lba
                &&& le32(b, 80) == self.number_of_partition_entries
                &&& le32(b, 84) == self.size_of_partition_entry
                &&& le32(b, 88) == self.partition_entry_array_crc32
            }),
    {
        reveal(GptHeader::fixed_bytes);
        let front = self.front_bytes(size, crc);
        let back = self.back_bytes();
        let guid = self.disk_guid.0@;
        let b = self.fixed_bytes(size, crc) + rest;
        assert(b =~= front + (guid + back + rest));
        assert(b =~= (front + guid) + back + rest);
        assert(b.subrange(56, 72) =~= guid);
        self.front_read_back(size, crc, guid + back + rest);
        self.back_read_back(front + guid, rest);
    }

    proof fn front_read_back(self, size: u32, crc: u32, rest: Seq<u8>)
        ensures
            ({
                let b = self.front_bytes(size, crc) + rest;
                &&& le64(b, 0) == self.signature
                &&& le32(b, 8) == self.revision
                &&& le32(b, 12) == size
                &&& le32(b, 16) == crc
                &&& le32(b, 20) == 0
                &&& le64(b, 24) == self.my_lba
                &&& le64(b, 32) == self.alternate_lba
                &&& le64(b, 40) == self.first_usable_lba
                &&& le64(b, 48) == self.last_usable_lba
            }),
    {
        let b = self.front_bytes(size, crc) + rest;
        nine_parts(
            bytes64(self.signature),
            bytes32(self.revision),
            bytes32(size),
            bytes32(crc),
            bytes32(0),
            bytes64(self.my_lba),
            bytes64(self.alternate_lba),
            bytes64(self.first_usable_lba),
            bytes64(self.last_usable_lba),
            rest,
        );
        le64_reads_bytes64(b, 0, self.signature);
        le32_reads_bytes32(b, 8, self.revision);
        le32_reads_bytes32(b, 12, size);
        le32_reads_bytes32(b, 16, crc);
        le32_reads_bytes32(b, 20, 0);
        le64_reads_bytes64(b, 24, self.my_lba);
        le64_reads_bytes64(b, 32, self.alternate_lba);
        le64_reads_bytes64(b, 40, self.first_usable_lba);
        le64_reads_bytes64(b, 48, self.last_usable_lba);
    }

    proof fn back_read_back(self, prefix: Seq<u8>, rest: Seq<u8>)
        requires
            prefix.len() == 72,
        ensures
            ({
                let b = prefix + self.back_bytes() + rest;
                &&& le64(b, 72) == self.partition_entry_lba
                &&& le32(b, 80) == self.number_of_partition_entries
                &&& le32(b, 84) == self.size_of_partition_entry
                &&& le32(b, 88) == self.partition_entry_array_crc32
            }),
    {
        let b = prefix + self.back_bytes() + rest;
        assert(b.subrange(72, 80) =~= bytes64(self.partition_entry_lba));
        le64_reads_bytes64(b, 72, self.partition_entry_lba);
        assert(b.subrange(80, 84) =~= bytes32(self.number_of_partition_entries));
        le32_reads_bytes32(b, 80, self.number_of_partition_entries);
        assert(b.subrange(84, 88) =~= bytes32(self.size_of_partition_entry));
        le32_reads_bytes32(b, 84, self.size_of_partition_entry);
        assert(b.subrange(88, 92) =~= bytes32(self.partition_entry_array_crc32));
        le32_reads_bytes32(b, 88, self.partition_entry_array_crc32);
    }

    /// Writing with a different checksum changes the CRC field and nothing
    /// else.
    proof fn fixed_bytes_crc_field(self, size: u32, crc: u32)
        ensures
            self.fixed_bytes(size, crc).take(16) == self.fixed_bytes(size, 0).take(16),
            self.fixed_bytes(size, crc).subrange(20, 92) == self.fixed_bytes(size, 0).subrange(20, 92),
            self.fixed_bytes(size, 0).subrange(16, 20) == zeros(4),
    {
        reveal(GptHeader::fixed_bytes);
        let a = self.fixed_bytes(size, crc);
        let b = self.fixed_bytes(size, 0);
        assert(a.take(16) =~= b.take(16));
        assert(a.subrange(20, 92) =~= b.subrange(20, 92));
        assert(b.subrange(16, 20) =~= bytes32(0));
        assert(bytes32(0) =~= zeros(4));
    }

    /// A written header fills its block.
    pub proof fn block_fills(self, block_size: u32)
        requires
            block_size >= HEADER_MIN_SIZE,
        ensures
            self.block_bytes(block_size).len() == block_size,
    {
        let size = self.written_size(block_size);
        let pad = zeros((block_size - HEADER_MIN_SIZE) as nat);
        let crc = crc32_of((self.fixed_bytes(size, 0) + pad).take(size as int));
        self.fixed_bytes_len(size, crc);
    }

    /// A header that was written reads back with the same fields, apart from
    /// the three that are settled by writing it: the size is kept within one
    /// block, the reserved field is zero, and the checksum is the one its
    /// own bytes call for.
    pub proof fn written_header_reads_back(self, block_size: u32, read: GptHeader)
        requires
            read.parsed_from(self.block_bytes(block_size)),
        ensures
            self.block_bytes(block_size).len() == if block_size >= HEADER_MIN_SIZE {
                block_size
            } else {
                HEADER_MIN_SIZE
            },
            read.expected_crc(self.block_bytes(block_size)) == Some(read.header_crc32),
            read == (GptHeader {
                header_size: self.written_size(block_size),
                reserved: 0,
                header_crc32: read.header_crc32,
                ..self
            }),
    {
        let size = self.written_size(block_size);
        let pad = zeros(
            (if block_size >= size {
                block_size - HEADER_MIN_SIZE
            } else {
                size - HEADER_MIN_SIZE
            }) as nat,
        );
        let crc = crc32_of((self.fixed_bytes(size, 0) + pad).take(size as int));
        let block = self.block_bytes(block_size);
        self.fixed_bytes_read_back(size, crc, pad);
        self.fixed_bytes_len(size, crc);
        self.fixed_bytes_len(size, 0);
        self.fixed_bytes_crc_field(size, crc);
        assert(read.disk_guid.0 =~= self.disk_guid.0);
        let a = self.fixed_bytes(size, crc);
        let z = self.fixed_bytes(size, 0);
        let input = crc_input(block, size as int);
        let draft = (z + pad).take(size as int);
        assert(input.len() == draft.len());
        assert forall|i: int| 0 <= i < size implies input[i] == draft[i] by {
            if i < 16 {
                assert(a.take(16)[i] == z.take(16)[i]);
            } else if i < 20 {
                assert(z.subrange(16, 20)[i - 16] == zeros(4)[i - 16]);
            } else if i < 92 {
                assert(a.subrange(20, 92)[i - 20] == z.subrange(20, 92)[i - 20]);
            }
        }
        assert(input =~= draft);
    }

    fn fixed_vec(&self, size: u32, crc: u32) -> (r: Vec<u8>)
        ensures
            r@ == self.fixed_bytes(size, crc),
    {
        reveal(GptHeader::fixed_bytes);
        let mut out: Vec<u8> = Vec::new();
        put_u64(&mut out, self.signature);
        assert(out@ =~= bytes64(self.signature));
        put_u32(&mut out, self.revision);
        put_u32(&mut out, size);
        put_u32(&mut out, crc);
        put_u32(&mut out, 0);
        put_u64(&mut out, self.my_lba);
        put_u64(&mut out, self.alternate_lba);
        put_u64(&mut out, self.first_usable_lba);
        put_u64(&mut out, self.last_usable_lba);
        assert(out@ == self.front_bytes(size, crc));
        put_bytes(&mut out, self.disk_guid.0.as_slice());
        let mut back: Vec<u8> = Vec::new();
        put_u64(&mut back, self.partition_entry_lba);
        assert(back@ =~= bytes64(self.partition_entry_lba));
        put_u32(&mut back, self.number_of_partition_entries);
        put_u32(&mut back, self.size_of_partition_entry);
        put_u32(&mut back, self.partition_entry_array_crc32);
        assert(back@ == self.back_bytes());
        put_bytes(&mut out, back.as_slice());
        out
    }

    /// Serialize into a full block, zero-padded.
    ///
    /// `header_crc32` is recomputed here rather than taken from `self`, so
    /// a caller cannot write a header whose CRC does not match its body. A
    /// block size below the 92-byte minimum is saturated rather than
    /// panicked on.
    pub fn to_block(&self, block_size: u32, crc: &impl Crc32) -> (r: Vec<u8>)
        ensures
            r@ == self.block_bytes(block_size),
    {
        let cap: u32 = if block_size >= HEADER_MIN_SIZE {
            block_size
        } else {
            HEADER_MIN_SIZE
        };
        let wanted: u32 = if self.header_size >= HEADER_MIN_SIZE {
            self.header_size
        } else {
            HEADER_MIN_SIZE
        };
        let size: u32 = if wanted <= cap {
            wanted
        } else {
            cap
        };
        let pad: u32 = if block_size >= size {
            block_size - HEADER_MIN_SIZE
        } else {
            size - HEADER_MIN_SIZE
        };
        proof {
            self.fixed_bytes_len(size, 0);
        }
        let mut draft = self.fixed_vec(size, 0);
        put_zeros(&mut draft, pad as usize);
        assert(draft@.subrange(0, size as int) =~= draft@.take(size as int));
        let computed: u32 = crc.crc32(&draft.as_slice()[0..size as usize]);
        let mut block = self.fixed_vec(size, computed);
        put_zeros(&mut block, pad as usize);
        block
    }
}


/// Everything wrong with a header is reported, each thing with what was found
/// and what it was held against, and nothing is reported that is not wrong:
/// one defect does not hide another.
pub proof fn every_defect_of_a_header_is_named(
    h: GptHeader,
    raw: Seq<u8>,
    entries: Option<Seq<u8>>,
    read_from: u64,
    last_block: u64,
    block_size: u32,
    d: Defect,
)
    ensures
        h.defects(raw, entries, read_from, last_block, block_size).contains(d) <==> match d {
            Defect::BadSignature { found } => found == h.signature && found
                != 0x5452_4150_2049_4645,
            Defect::BadRevision { found } => found == h.revision && found != 0x0001_0000,
            Defect::HeaderSizeOutOfRange { found, block_size: limit } => found == h.header_size
                && limit == block_size && !(92 <= found <= limit),
            Defect::ReservedNonZero { found } => found == h.reserved && found != 0,
            Defect::HeaderCrcMismatch { stored, computed } => stored == h.header_crc32 && 92
                <= h.header_size <= raw.len() && computed == crc32_of(
                raw.take(16) + zeros(4) + raw.subrange(20, h.header_size as int),
            ) && stored != computed,
            Defect::MyLbaMismatch { stored, read_from: at } => stored == h.my_lba && at == read_from
                && stored != at,
            Defect::AlternateLbaOutOfRange { stored, last_block: end } => stored == h.alternate_lba
                && end == last_block && !(1 <= stored <= end),
            Defect::AlternateLbaWrongForRole { stored, expected } => stored == h.alternate_lba && 1
                <= stored <= last_block && stored != expected && ((read_from == 1 && expected
                == last_block) || (read_from != 1 && read_from == last_block && expected == 1)),
            Defect::EntrySizeInvalid { found } => found == h.size_of_partition_entry && (found < 128
                || found % 8 != 0),
            Defect::EntryCountOutOfRange { found } => found == h.number_of_partition_entries && !(1
                <= found <= 8192),
            Defect::EntryArrayCrcMismatch { stored, computed } => stored
                == h.partition_entry_array_crc32 && h.array_len() is Some && entries is Some
                && entries->0.len() >= h.array_len()->0 && computed == crc32_of(
                entries->0.take(h.array_len()->0 as int),
            ) && stored != computed,
            Defect::UsableRangeInvalid { first, last, last_block: end } => first
                == h.first_usable_lba && last == h.last_usable_lba && end == last_block && !(2
                <= first <= last <= end),
            Defect::EntryArrayOutOfRange { entry_lba, blocks, last_block: end } => entry_lba
                == h.partition_entry_lba && h.array_blocks(block_size) == Some(blocks) && end
                == last_block && !(1 <= entry_lba && entry_lba + blocks <= u64::MAX && entry_lba
                + blocks <= end + 1),
            Defect::MainEntryLbaNotTwo { found } => found == h.partition_entry_lba && read_from == 1
                && found != 2,
        },
{
    let s0 = flagged(
        h.signature != GPT_SIGNATURE,
        Defect::BadSignature { found: h.signature },
    );
    let s1 = flagged(h.revision != GPT_REVISION_1_0, Defect::BadRevision { found: h.revision });
    let s2 = flagged(
        h.header_size < HEADER_MIN_SIZE || h.header_size > block_size,
        Defect::HeaderSizeOutOfRange { found: h.header_size, block_size },
    );
    let s3 = flagged(h.reserved != 0, Defect::ReservedNonZero { found: h.reserved });
    let s4 = flagged(
        h.my_lba != read_from,
        Defect::MyLbaMismatch { stored: h.my_lba, read_from },
    );
    let s5 = flagged(
        h.alternate_outside(last_block),
        Defect::AlternateLbaOutOfRange { stored: h.alternate_lba, last_block },
    );
    let s6 = h.role_defects(read_from, last_block);
    let s7 = flagged(
        !h.stride_ok(),
        Defect::EntrySizeInvalid { found: h.size_of_partition_entry },
    );
    let s8 = flagged(
        !h.count_ok(),
        Defect::EntryCountOutOfRange { found: h.number_of_partition_entries },
    );
    let s9 = flagged(
        h.first_usable_lba < 2 || h.last_usable_lba > last_block || h.first_usable_lba
            > h.last_usable_lba,
        Defect::UsableRangeInvalid {
            first: h.first_usable_lba,
            last: h.last_usable_lba,
            last_block,
        },
    );
    let s10 = flagged(
        read_from == 1 && h.partition_entry_lba != 2,
        Defect::MainEntryLbaNotTwo { found: h.partition_entry_lba },
    );
    let s11 = h.extent_defects(last_block, block_size);
    let s12 = h.crc_defects(raw);
    let s13 = h.array_defects(entries);
    none_named(d);
    assert(h.defects(raw, entries, read_from, last_block, block_size).contains(d) == names_it(
        h.defects(raw, entries, read_from, last_block, block_size),
        d,
    )) by {
        reveal(names_it);
    }
    fourteen_lists(s0, s1, s2, s3, s4, s5, s6, s7, s8, s9, s10, s11, s12, s13, d);
    one_flag(
        h.signature != GPT_SIGNATURE,
        Defect::BadSignature { found: h.signature },
        d,
    );
    one_flag(h.revision != GPT_REVISION_1_0, Defect::BadRevision { found: h.revision }, d);
    one_flag(
        h.header_size < HEADER_MIN_SIZE || h.header_size > block_size,
        Defect::HeaderSizeOutOfRange { found: h.header_size, block_size },
        d,
    );
    one_flag(h.reserved != 0, Defect::ReservedNonZero { found: h.reserved }, d);
    one_flag(h.my_lba != read_from, Defect::MyLbaMismatch { stored: h.my_lba, read_from }, d);
    one_flag(
        h.alternate_outside(last_block),
        Defect::AlternateLbaOutOfRange { stored: h.alternate_lba, last_block },
        d,
    );
    if let Some(expected) = GptHeader::expected_alternate(read_from, last_block) {
        one_flag(
            !h.alternate_outside(last_block) && h.alternate_lba != expected,
            Defect::AlternateLbaWrongForRole { stored: h.alternate_lba, expected },
            d,
        );
    }
    one_flag(
        !h.stride_ok(),
        Defect::EntrySizeInvalid { found: h.size_of_partition_entry },
        d,
    );
    one_flag(
        !h.count_ok(),
        Defect::EntryCountOutOfRange { found: h.number_of_partition_entries },
        d,
    );
    one_flag(
        h.first_usable_lba < 2 || h.last_usable_lba > last_block || h.first_usable_lba
            > h.last_usable_lba,
        Defect::UsableRangeInvalid {
            first: h.first_usable_lba,
            last: h.last_usable_lba,
            last_block,
        },
        d,
    );
    one_flag(
        read_from == 1 && h.partition_entry_lba != 2,
        Defect::MainEntryLbaNotTwo { found: h.partition_entry_lba },
        d,
    );
    if let Some(blocks) = h.array_blocks(block_size) {
        one_flag(
            !h.array_fits(blocks, last_block),
            Defect::EntryArrayOutOfRange { entry_lba: h.partition_entry_lba, blocks, last_block },
            d,
        );
    }
    if let Some(computed) = h.expected_crc(raw) {
        one_flag(
            computed != h.header_crc32,
            Defect::HeaderCrcMismatch { stored: h.header_crc32, computed },
            d,
        );
    }
    if let (Some(e), Some(len)) = (entries, h.array_len()) {
        one_flag(
            crc32_of(e.take(len as int)) != h.partition_entry_array_crc32,
            Defect::EntryArrayCrcMismatch {
                stored: h.partition_entry_array_crc32,
                computed: crc32_of(e.take(len as int)),
            },
            d,
        );
    }
}

/// A list has this defect on it.
#[verifier::opaque]
spec fn names_it(list: Seq<Defect>, d: Defect) -> bool {
    list.contains(d)
}

proof fn two_lists(a: Seq<Defect>, b: Seq<Defect>, x: Defect)
    ensures
        names_it(a + b, x) <==> names_it(a, x) || names_it(b, x),
{
    reveal(names_it);
    let all = a + b;
    if a.contains(x) {
        let i = choose|i: int| 0 <= i < a.len() && a[i] == x;
        assert(all[i] == x);
    }
    if b.contains(x) {
        let i = choose|i: int| 0 <= i < b.len() && b[i] == x;
        assert(all[a.len() + i] == x);
    }
    if all.contains(x) {
        let i = choose|i: int| 0 <= i < all.len() && all[i] == x;
        if i < a.len() {
            assert(a[i] == x);
        } else {
            assert(b[i - a.len()] == x);
        }
    }
}

proof fn fourteen_lists(
    s0: Seq<Defect>,
    s1: Seq<Defect>,
    s2: Seq<Defect>,
    s3: Seq<Defect>,
    s4: Seq<Defect>,
    s5: Seq<Defect>,
    s6: Seq<Defect>,
    s7: Seq<Defect>,
    s8: Seq<Defect>,
    s9: Seq<Defect>,
    s10: Seq<Defect>,
    s11: Seq<Defect>,
    s12: Seq<Defect>,
    s13: Seq<Defect>,
    x: Defect,
)
    ensures
        names_it(
            s0 + s1 + s2 + s3 + s4 + s5 + s6 + s7 + s8 + s9 + s10 + s11 + s12 + s13,
            x,
        ) <==> names_it(s0, x) || names_it(s1, x) || names_it(s2, x) || names_it(s3, x) || names_it(s4, x) || names_it(s5, x) || names_it(s6, x) || names_it(s7, x) || names_it(s8, x) || names_it(s9, x) || names_it(s10, x) || names_it(s11, x) || names_it(s12, x) || names_it(s13, x),
{
    two_lists(s0, s1, x);
    two_lists(s0 + s1, s2, x);
    two_lists(s0 + s1 + s2, s3, x);
    two_lists(s0 + s1 + s2 + s3, s4, x);
    two_lists(s0 + s1 + s2 + s3 + s4, s5, x);
    two_lists(s0 + s1 + s2 + s3 + s4 + s5, s6, x);
    two_lists(s0 + s1 + s2 + s3 + s4 + s5 + s6, s7, x);
    two_lists(s0 + s1 + s2 + s3 + s4 + s5 + s6 + s7, s8, x);
    two_lists(s0 + s1 + s2 + s3 + s4 + s5 + s6 + s7 + s8, s9, x);
    two_lists(s0 + s1 + s2 + s3 + s4 + s5 + s6 + s7 + s8 + s9, s10, x);
    two_lists(s0 + s1 + s2 + s3 + s4 + s5 + s6 + s7 + s8 + s9 + s10, s11, x);
    two_lists(s0 + s1 + s2 + s3 + s4 + s5 + s6 + s7 + s8 + s9 + s10 + s11, s12, x);
    two_lists(s0 + s1 + s2 + s3 + s4 + s5 + s6 + s7 + s8 + s9 + s10 + s11 + s12, s13, x);
}

proof fn one_flag(applies: bool, d: Defect, x: Defect)
    ensures
        names_it(flagged(applies, d), x) <==> applies && x == d,
{
    reveal(names_it);
    reveal(flagged);
    if applies {
        assert(flagged(applies, d)[0] == d);
    }
}

proof fn none_named(x: Defect)
    ensures
        !names_it(Seq::empty(), x),
{
    reveal(names_it);
}

} // verus!
