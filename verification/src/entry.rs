//! Partition entries.

use crate::bytes::{le16, le64, rd_u16, rd_u64, zeros};
use crate::guid::Guid;
use crate::utf16::{decode16, decode16_text, until_nul, until_nul_at};
use vstd::prelude::*;

verus! {

/// The conventional entry size. Headers may declare larger; we handle that
/// by striding, never by assuming.
pub const ENTRY_SIZE_DEFAULT: u32 = 128;

/// Number of UTF-16 code units in the name field.
pub const NAME_LEN: usize = 36;

#[derive(Clone, Copy, PartialEq, Eq, Debug)]
pub struct PartitionEntry {
    pub type_guid: Guid,
    pub unique_guid: Guid,
    pub starting_lba: u64,
    pub ending_lba: u64,
    pub attributes: u64,
    pub name: [u16; NAME_LEN],
}

impl PartitionEntry {
    /// This is the entry the bytes `b` hold: two GUIDs, three little-endian
    /// numbers, then the name.
    pub open spec fn parsed_from(self, b: Seq<u8>) -> bool {
        &&& self.type_guid.0@ == b.subrange(0, 16)
        &&& self.unique_guid.0@ == b.subrange(16, 32)
        &&& self.starting_lba == le64(b, 32)
        &&& self.ending_lba == le64(b, 40)
        &&& self.attributes == le64(b, 48)
        &&& forall|i: int| 0 <= i < NAME_LEN ==> #[trigger] self.name@[i] == le16(b, 56 + 2 * i)
    }

    /// Only one entry is held by given bytes.
    pub proof fn parsed_from_is_unique(self, other: PartitionEntry, b: Seq<u8>)
        requires
            self.parsed_from(b),
            other.parsed_from(b),
        ensures
            self == other,
    {
        assert(self.type_guid.0 =~= other.type_guid.0);
        assert(self.unique_guid.0 =~= other.unique_guid.0);
        assert forall|i: int| 0 <= i < NAME_LEN implies self.name@[i] == other.name@[i] by {}
        assert(self.name =~= other.name);
    }

    pub fn parse(buf: &[u8]) -> (r: Option<Self>)
        ensures
            r is Some == (buf@.len() >= 128),
            r matches Some(e) ==> e.parsed_from(buf@),
    {
        if buf.len() < 128 {
            return None;
        }
        let mut name: [u16; NAME_LEN] = [0;NAME_LEN];
        let mut i: usize = 0;
        while i < NAME_LEN
            invariant
                i <= NAME_LEN,
                buf@.len() >= 128,
                forall|j: int| 0 <= j < i ==> #[trigger] name@[j] == le16(buf@, 56 + 2 * j),
            decreases NAME_LEN - i,
        {
            name[i] = rd_u16(buf, 56 + 2 * i);
            i += 1;
        }
        let type_guid = Guid::read_from(buf, 0)?;
        let unique_guid = Guid::read_from(buf, 16)?;
        Some(
            PartitionEntry {
                type_guid,
                unique_guid,
                starting_lba: rd_u64(buf, 32),
                ending_lba: rd_u64(buf, 40),
                attributes: rd_u64(buf, 48),
                name,
            },
        )
    }

    /// An all-zero type GUID marks an unused slot.
    pub open spec fn used(self) -> bool {
        !self.type_guid.zero()
    }

    /// An all-zero type GUID marks an unused slot.
    pub fn is_used(&self) -> (r: bool)
        ensures
            r == self.used(),
    {
        !self.type_guid.is_zero()
    }

    /// The name up to the first NUL, with unpaired surrogates replaced.
    pub open spec fn name_text(self) -> Seq<char> {
        decode16(until_nul(self.name@))
    }

    /// Decode the name, stopping at the first NUL. Unpaired surrogates are
    /// replaced rather than rejected, since this is only ever displayed.
    pub fn name_string(&self) -> (r: String)
        ensures
            r@ == self.name_text(),
    {
        let units = self.name.as_slice();
        let mut end: usize = 0;
        while end < units.len() && units[end] != 0
            invariant
                end <= units.len(),
                forall|j: int| 0 <= j < end ==> units@[j] != 0,
            decreases units.len() - end,
        {
            end += 1;
        }
        proof {
            until_nul_at(units@, end as int);
        }
        assert(units@.take(end as int) =~= units@.subrange(0, end as int));
        decode16_text(&units[0..end])
    }

    /// Inclusive block count, or `None` if the range is inverted.
    pub open spec fn extent(self) -> Option<u64> {
        if self.starting_lba <= self.ending_lba && self.ending_lba - self.starting_lba < u64::MAX {
            Some((self.ending_lba - self.starting_lba + 1) as u64)
        } else {
            None
        }
    }

    /// Inclusive block count, or `None` if the range is inverted.
    pub fn block_count(&self) -> (r: Option<u64>)
        ensures
            r == self.extent(),
    {
        match self.ending_lba.checked_sub(self.starting_lba) {
            Some(n) => n.checked_add(1),
            None => None,
        }
    }

    /// Whether the two block ranges intersect.
    pub open spec fn meets(self, other: PartitionEntry) -> bool {
        self.starting_lba <= other.ending_lba && other.starting_lba <= self.ending_lba
    }

    /// True if this entry's block range intersects `other`'s.
    pub fn overlaps(&self, other: &PartitionEntry) -> (r: bool)
        ensures
            r == self.meets(*other),
    {
        self.starting_lba <= other.ending_lba && other.starting_lba <= self.ending_lba
    }

    /// Whether two entries are the same in every field.
    pub(crate) fn same(&self, other: &PartitionEntry) -> (r: bool)
        ensures
            r == (*self == *other),
    {
        if !self.type_guid.same(&other.type_guid) || !self.unique_guid.same(&other.unique_guid)
            || self.starting_lba != other.starting_lba || self.ending_lba != other.ending_lba
            || self.attributes != other.attributes {
            return false;
        }
        let mut i: usize = 0;
        while i < NAME_LEN
            invariant
                i <= NAME_LEN,
                forall|j: int| 0 <= j < i ==> self.name@[j] == other.name@[j],
            decreases NAME_LEN - i,
        {
            if self.name[i] != other.name[i] {
                return false;
            }
            i += 1;
        }
        assert(self.name =~= other.name);
        true
    }
}

/// Whether one entry's block range intersects itself with another's both
/// ways round: overlapping is symmetric.
pub proof fn overlap_is_symmetric(a: PartitionEntry, b: PartitionEntry)
    ensures
        a.meets(b) == b.meets(a),
{
}

/// How many whole entries of `stride` bytes a buffer holds, up to `count`.
pub open spec fn entry_count(len: nat, count: u32, stride: u32) -> nat {
    if stride < 128 {
        0
    } else if len / stride as nat <= count {
        len / stride as nat
    } else {
        count as nat
    }
}

/// `entries` are the entries of an array of `stride`-byte slots.
pub open spec fn array_holds(
    entries: Seq<PartitionEntry>,
    bytes: Seq<u8>,
    count: u32,
    stride: u32,
) -> bool {
    &&& entries.len() == entry_count(bytes.len(), count, stride)
    &&& forall|i: int|
        0 <= i < entries.len() ==> #[trigger] entries[i].parsed_from(
            bytes.subrange(i * stride, (i + 1) * stride),
        )
}

/// Slice an entry array into entries, honouring a stride larger than 128.
///
/// Trailing bytes that do not form a whole entry are ignored rather than
/// treated as an error: the array is sized by the header, and a short read
/// is already reported elsewhere.
pub fn parse_array(bytes: &[u8], count: u32, stride: u32) -> (r: Vec<PartitionEntry>)
    ensures
        array_holds(r@, bytes@, count, stride),
{
    let mut out: Vec<PartitionEntry> = Vec::new();
    if stride < 128 {
        return out;
    }
    let step: usize = stride as usize;
    let whole: usize = bytes.len() / step;
    let limit: usize = if whole <= count as usize {
        whole
    } else {
        count as usize
    };
    assert(limit * step <= bytes.len()) by (nonlinear_arith)
        requires
            limit <= whole,
            whole == bytes.len() as int / step as int,
            step > 0,
    ;
    let mut i: usize = 0;
    let mut start: usize = 0;
    while i < limit
        invariant
            i <= limit,
            step == stride,
            stride >= 128,
            start == i * step,
            limit * step <= bytes.len(),
            out@.len() == i,
            forall|j: int|
                0 <= j < i ==> #[trigger] out@[j].parsed_from(
                    bytes@.subrange(j * stride, (j + 1) * stride),
                ),
        decreases limit - i,
    {
        assert(start + step == (i + 1) * step && (i + 1) * step <= limit * step) by (nonlinear_arith)
            requires
                start == i * step,
                i < limit,
                step > 0,
        ;
        if let Some(e) = PartitionEntry::parse(&bytes[start..start + step]) {
            out.push(e);
        }
        start += step;
        i += 1;
    }
    out
}

/// An owned copy of a list of entries.
pub(crate) fn copied_entries(entries: &[PartitionEntry]) -> (r: Vec<PartitionEntry>)
    ensures
        r@ == entries@,
{
    let mut out: Vec<PartitionEntry> = Vec::new();
    let mut i: usize = 0;
    while i < entries.len()
        invariant
            i <= entries.len(),
            out@ == entries@.take(i as int),
        decreases entries.len() - i,
    {
        out.push(entries[i]);
        i += 1;
        assert(entries@.take(i as int) =~= entries@.take(i - 1).push(entries@[i - 1]));
    }
    assert(entries@.take(i as int) =~= entries@);
    out
}


/// Two partitions overlap exactly if some block belongs to both.
pub proof fn partitions_overlap_where_they_share_a_block(a: PartitionEntry, b: PartitionEntry)
    requires
        a.starting_lba <= a.ending_lba,
        b.starting_lba <= b.ending_lba,
    ensures
        a.meets(b) <==> exists|block: u64|
            #![trigger holds_block(a, block), holds_block(b, block)]
            holds_block(a, block) && holds_block(b, block),
{
    if a.meets(b) {
        let block = if a.starting_lba >= b.starting_lba {
            a.starting_lba
        } else {
            b.starting_lba
        };
        assert(holds_block(a, block) && holds_block(b, block));
    }
}

/// The block lies between the first and the last of the partition's.
pub open spec fn holds_block(e: PartitionEntry, block: u64) -> bool {
    e.starting_lba <= block <= e.ending_lba
}

/// A partition has as many blocks as lie from its first to its last, both
/// counted.
pub proof fn both_ends_are_counted(e: PartitionEntry)
    ensures
        e.extent() matches Some(n) ==> e.starting_lba + n == e.ending_lba + 1 && n >= 1,
        e.starting_lba == e.ending_lba ==> e.extent() == Some(1u64),
        e.starting_lba > e.ending_lba ==> e.extent() is None,
        1 <= e.starting_lba <= e.ending_lba ==> e.extent() is Some,
{
}

/// A slot is used exactly if some byte of its type is not zero.
pub proof fn an_unused_slot_has_no_type(e: PartitionEntry)
    ensures
        e.used() <==> exists|i: int| 0 <= i < 16 && #[trigger] e.type_guid.0@[i] != 0,
{
    let t = e.type_guid.0@;
    if forall|i: int| 0 <= i < 16 ==> #[trigger] t[i] == 0 {
        assert(t =~= zeros(16));
    } else {
        let i = choose|i: int| 0 <= i < 16 && #[trigger] t[i] != 0;
        assert(zeros(16)[i] == 0);
    }
}

} // verus!
