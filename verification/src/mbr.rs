//! The protective MBR at LBA 0.
//!
//! Regeneration deliberately preserves bytes 0..444. Those are boot code and
//! the disk signature, irrelevant to UEFI boot but not ours to discard, and a
//! hybrid MBR is refused outright rather than "repaired" into a protective
//! one.

use crate::bytes::{bytes32, le16, le32, le32_reads_bytes32, put_bytes, put_u32, put_zeros, rd_u16, rd_u32, zeros};
use vstd::prelude::*;

verus! {

pub const MBR_BOOT_SIGNATURE: u16 = 0xAA55;

pub const OS_TYPE_GPT_PROTECTIVE: u8 = 0xEE;

/// Boot code up to 440, the disk signature behind it.
const OFF_KEPT_END: usize = 444;

const OFF_RECORDS: usize = 446;

const RECORD_SIZE: usize = 16;

const RECORD_COUNT: usize = 4;

const OFF_SIGNATURE: usize = 510;

#[derive(Clone, Copy, PartialEq, Eq, Debug, Default)]
pub struct MbrRecord {
    pub boot_indicator: u8,
    pub start_chs: [u8; 3],
    pub os_type: u8,
    pub end_chs: [u8; 3],
    pub starting_lba: u32,
    pub size_in_lba: u32,
}

impl MbrRecord {
    /// This is the record at `off`.
    pub open spec fn parsed_from(self, b: Seq<u8>, off: int) -> bool {
        &&& self.boot_indicator == b[off]
        &&& self.start_chs@ == b.subrange(off + 1, off + 4)
        &&& self.os_type == b[off + 4]
        &&& self.end_chs@ == b.subrange(off + 5, off + 8)
        &&& self.starting_lba == le32(b, off + 8)
        &&& self.size_in_lba == le32(b, off + 12)
    }

    fn parse(buf: &[u8], off: usize) -> (r: Self)
        requires
            off + 16 <= buf@.len(),
        ensures
            r.parsed_from(buf@, off as int),
    {
        assert(buf.len() == buf@.len());
        let r = MbrRecord {
            boot_indicator: buf[off],
            start_chs: [buf[off + 1], buf[off + 2], buf[off + 3]],
            os_type: buf[off + 4],
            end_chs: [buf[off + 5], buf[off + 6], buf[off + 7]],
            starting_lba: rd_u32(buf, off + 8),
            size_in_lba: rd_u32(buf, off + 12),
        };
        assert(r.start_chs@ =~= buf@.subrange(off + 1, off + 4));
        assert(r.end_chs@ =~= buf@.subrange(off + 5, off + 8));
        r
    }

    /// The sixteen bytes of a record.
    pub open spec fn record_bytes(self) -> Seq<u8> {
        seq![self.boot_indicator] + self.start_chs@ + seq![self.os_type] + self.end_chs@ + bytes32(
            self.starting_lba,
        ) + bytes32(self.size_in_lba)
    }

    fn to_vec(&self) -> (r: Vec<u8>)
        ensures
            r@ == self.record_bytes(),
    {
        let mut out: Vec<u8> = Vec::new();
        out.push(self.boot_indicator);
        assert(out@ =~= seq![self.boot_indicator]);
        put_bytes(&mut out, self.start_chs.as_slice());
        let ghost before = out@;
        out.push(self.os_type);
        assert(out@ =~= before + seq![self.os_type]);
        put_bytes(&mut out, self.end_chs.as_slice());
        put_u32(&mut out, self.starting_lba);
        put_u32(&mut out, self.size_in_lba);
        out
    }

    /// Write the record over the first sixteen bytes of `buf`.
    pub fn write_to(&self, buf: &mut [u8])
        requires
            old(buf)@.len() >= 16,
        ensures
            final(buf)@ == self.record_bytes() + old(buf)@.skip(16),
    {
        let bytes = self.to_vec();
        assert(self.record_bytes().len() == 16);
        let mut i: usize = 0;
        while i < RECORD_SIZE
            invariant
                i <= RECORD_SIZE,
                bytes@ == self.record_bytes(),
                bytes@.len() == 16,
                buf@.len() == old(buf)@.len(),
                old(buf)@.len() >= 16,
                forall|j: int| 0 <= j < i ==> buf@[j] == bytes@[j],
                forall|j: int| i <= j < buf@.len() ==> buf@[j] == old(buf)@[j],
            decreases RECORD_SIZE - i,
        {
            buf[i] = bytes[i];
            i += 1;
        }
        assert(buf@ =~= self.record_bytes() + old(buf)@.skip(16));
    }

    /// Nothing is recorded here.
    pub open spec fn empty(self) -> bool {
        self.os_type == 0 && self.starting_lba == 0 && self.size_in_lba == 0
    }

    /// Nothing is recorded here.
    pub fn is_empty(&self) -> (r: bool)
        ensures
            r == self.empty(),
    {
        self.os_type == 0 && self.starting_lba == 0 && self.size_in_lba == 0
    }
}

#[derive(Clone, Copy, PartialEq, Eq, Structural, Debug)]
#[allow(inconsistent_fields)]
pub enum MbrStatus {
    /// Exactly one 0xEE record starting at LBA 1 and covering the disk.
    Protective,
    /// Protective in shape, but SizeInLBA does not cover the disk. This is
    /// what a resized or re-imaged disk leaves behind.
    WrongSize { found: u32, expected: u32 },
    /// Protective in shape, but it does not start right after the MBR.
    WrongStart { found: u32 },
    /// A 0xEE record alongside real partition records. Some legacy OS is
    /// relying on this view; regenerating it would break that, so we never
    /// touch a disk in this state.
    Hybrid,
    /// No boot signature, or no protective record at all.
    Absent,
}

impl MbrStatus {
    /// Whether this MBR should be rewritten as part of a repair.
    pub open spec fn repairable(self) -> bool {
        self is WrongSize || self is WrongStart || self is Absent
    }

    /// Whether this MBR should be rewritten as part of a repair.
    pub fn needs_repair(&self) -> (r: bool)
        ensures
            r == self.repairable(),
    {
        match self {
            MbrStatus::WrongSize { .. } | MbrStatus::WrongStart { .. } | MbrStatus::Absent => true,
            MbrStatus::Protective | MbrStatus::Hybrid => false,
        }
    }
}

/// The disk size minus one, saturated.
pub open spec fn covering_size(last_block: u64) -> u32 {
    if last_block <= u32::MAX {
        last_block as u32
    } else {
        u32::MAX
    }
}

/// What SizeInLBA should be: the disk size minus one, saturated.
pub fn expected_size_in_lba(last_block: u64) -> (r: u32)
    ensures
        r == covering_size(last_block),
{
    if last_block <= u32::MAX as u64 {
        last_block as u32
    } else {
        u32::MAX
    }
}

/// `records` are the four partition records of an MBR.
pub open spec fn records_of(records: Seq<MbrRecord>, block: Seq<u8>) -> bool {
    &&& records.len() == 4
    &&& forall|i: int|
        0 <= i < 4 ==> #[trigger] records[i].parsed_from(block, 446 + 16 * i)
}

/// The four partition records, or `None` for a block too short to be an
/// MBR.
pub fn records(block: &[u8]) -> (r: Option<Vec<MbrRecord>>)
    ensures
        r is Some == (block@.len() >= 512),
        r matches Some(v) ==> records_of(v@, block@),
{
    if block.len() < 512 {
        return None;
    }
    let mut out: Vec<MbrRecord> = Vec::new();
    let mut i: usize = 0;
    while i < RECORD_COUNT
        invariant
            i <= 4,
            block@.len() >= 512,
            out@.len() == i,
            forall|j: int| 0 <= j < i ==> #[trigger] out@[j].parsed_from(block@, 446 + 16 * j),
        decreases RECORD_COUNT - i,
    {
        out.push(MbrRecord::parse(block, OFF_RECORDS + i * RECORD_SIZE));
        i += 1;
    }
    Some(out)
}

/// The OS type of record `i`.
pub open spec fn type_at(b: Seq<u8>, i: int) -> u8 {
    b[446 + 16 * i + 4]
}

/// The first block of record `i`.
pub open spec fn start_at(b: Seq<u8>, i: int) -> u32 {
    le32(b, 446 + 16 * i + 8)
}

/// The number of blocks of record `i`.
pub open spec fn size_at(b: Seq<u8>, i: int) -> u32 {
    le32(b, 446 + 16 * i + 12)
}

/// Record `i` records nothing.
pub open spec fn empty_at(b: Seq<u8>, i: int) -> bool {
    type_at(b, i) == 0 && start_at(b, i) == 0 && size_at(b, i) == 0
}

/// The first protective record, or 4 if there is none.
pub open spec fn protective_index(b: Seq<u8>) -> int {
    if type_at(b, 0) == OS_TYPE_GPT_PROTECTIVE {
        0
    } else if type_at(b, 1) == OS_TYPE_GPT_PROTECTIVE {
        1
    } else if type_at(b, 2) == OS_TYPE_GPT_PROTECTIVE {
        2
    } else if type_at(b, 3) == OS_TYPE_GPT_PROTECTIVE {
        3
    } else {
        4
    }
}

/// What the block at LBA 0 is, on a disk whose last block is `last_block`.
pub open spec fn status_of(b: Seq<u8>, last_block: u64) -> MbrStatus {
    let at = protective_index(b);
    if b.len() < 512 || le16(b, 510) != MBR_BOOT_SIGNATURE || at == 4 {
        MbrStatus::Absent
    } else if exists|i: int| 0 <= i < 4 && i != at && !#[trigger] empty_at(b, i) {
        MbrStatus::Hybrid
    } else if start_at(b, at) != 1 {
        MbrStatus::WrongStart { found: start_at(b, at) }
    } else if size_at(b, at) != covering_size(last_block) {
        MbrStatus::WrongSize { found: size_at(b, at), expected: covering_size(last_block) }
    } else {
        MbrStatus::Protective
    }
}

pub fn inspect(block: &[u8], last_block: u64) -> (r: MbrStatus)
    ensures
        r == status_of(block@, last_block),
{
    if block.len() < 512 {
        return MbrStatus::Absent;
    }
    if rd_u16(block, OFF_SIGNATURE) != MBR_BOOT_SIGNATURE {
        return MbrStatus::Absent;
    }
    let list = match records(block) {
        Some(list) => list,
        None => return MbrStatus::Absent,
    };
    assert forall|j: int| 0 <= j < 4 implies {
        &&& #[trigger] list@[j].os_type == type_at(block@, j)
        &&& list@[j].starting_lba == start_at(block@, j)
        &&& list@[j].size_in_lba == size_at(block@, j)
    } by {
        assert(list@[j].parsed_from(block@, 446 + 16 * j));
    }
    let mut at: usize = 0;
    while at < RECORD_COUNT && list[at].os_type != OS_TYPE_GPT_PROTECTIVE
        invariant
            at <= 4,
            list@.len() == 4,
            forall|j: int| 0 <= j < 4 ==> #[trigger] list@[j].os_type == type_at(block@, j),
            forall|j: int| 0 <= j < at ==> type_at(block@, j) != OS_TYPE_GPT_PROTECTIVE,
        decreases RECORD_COUNT - at,
    {
        assert(list@[at as int].os_type == type_at(block@, at as int));
        at += 1;
    }
    if at < 4 {
        assert(list@[at as int].os_type == type_at(block@, at as int));
    }
    assert(at == protective_index(block@));
    if at == RECORD_COUNT {
        return MbrStatus::Absent;
    }
    // Any other populated record means somebody built a hybrid MBR.
    let mut i: usize = 0;
    while i < RECORD_COUNT
        invariant
            i <= 4,
            at == protective_index(block@),
            at < 4,
            block@.len() >= 512,
            le16(block@, 510) == MBR_BOOT_SIGNATURE,
            list@.len() == 4,
            forall|j: int|
                0 <= j < 4 ==> {
                    &&& #[trigger] list@[j].os_type == type_at(block@, j)
                    &&& list@[j].starting_lba == start_at(block@, j)
                    &&& list@[j].size_in_lba == size_at(block@, j)
                },
            forall|j: int| 0 <= j < i && j != at ==> #[trigger] empty_at(block@, j),
        decreases RECORD_COUNT - i,
    {
        assert(list@[i as int].os_type == type_at(block@, i as int));
        if i != at && !list[i].is_empty() {
            assert(!empty_at(block@, i as int));
            return MbrStatus::Hybrid;
        }
        i += 1;
    }
    let expected: u32 = expected_size_in_lba(last_block);
    let record = list[at];
    assert(list@[at as int].os_type == type_at(block@, at as int));
    if record.starting_lba != 1 {
        return MbrStatus::WrongStart { found: record.starting_lba };
    }
    if record.size_in_lba != expected {
        return MbrStatus::WrongSize { found: record.size_in_lba, expected };
    }
    MbrStatus::Protective
}

/// The bytes a regenerated MBR keeps of the one it replaces: boot code and
/// disk signature.
pub open spec fn kept(existing: Option<Seq<u8>>) -> Seq<u8> {
    match existing {
        Some(old) => if old.len() >= 444 {
            old.take(444)
        } else {
            old
        },
        None => Seq::empty(),
    }
}

/// The one record of a protective MBR: it starts right after the MBR,
/// covers the disk, and is out of reach of CHS addressing.
pub open spec fn protective_bytes(last_block: u64) -> Seq<u8> {
    seq![0x00u8, 0x00u8, 0x02u8, 0x00u8, OS_TYPE_GPT_PROTECTIVE, 0xFFu8, 0xFFu8, 0xFFu8] + bytes32(
        1,
    ) + bytes32(covering_size(last_block))
}

/// A protective MBR: boot code and disk signature, the protective record, three empty ones and
/// the boot signature.
pub open spec fn protective_mbr(existing: Option<Seq<u8>>, block_size: u32, last_block: u64) -> Seq<
    u8,
> {
    let old = kept(existing);
    old + zeros((446 - old.len()) as nat) + protective_bytes(last_block) + zeros(48)
        + seq![0x55u8, 0xAAu8] + zeros((block_size - 512) as nat)
}

/// Build a protective MBR, carrying over boot code and disk signature from
/// `existing` when it is present.
pub fn generate(existing: Option<&[u8]>, block_size: u32, last_block: u64) -> (r: Vec<u8>)
    requires
        block_size >= 512,
    ensures
        r@ == protective_mbr(
            match existing {
                Some(old) => Some(old@),
                None => None,
            },
            block_size,
            last_block,
        ),
{
    let mut block: Vec<u8> = Vec::new();
    if let Some(old_block) = existing {
        let carry: usize = if old_block.len() < OFF_KEPT_END {
            old_block.len()
        } else {
            OFF_KEPT_END
        };
        put_bytes(&mut block, &old_block[0..carry]);
        assert(block@ =~= kept(Some(old_block@)));
    }
    let carried: usize = block.len();
    put_zeros(&mut block, OFF_RECORDS - carried);
    // Records 2..4 stay zero; only the protective record is populated.
    let record = MbrRecord {
        boot_indicator: 0x00,
        start_chs: [0x00, 0x02, 0x00],
        os_type: OS_TYPE_GPT_PROTECTIVE,
        end_chs: [0xFF, 0xFF, 0xFF],
        starting_lba: 1,
        size_in_lba: expected_size_in_lba(last_block),
    };
    let bytes = record.to_vec();
    assert(bytes@ =~= protective_bytes(last_block));
    put_bytes(&mut block, bytes.as_slice());
    put_zeros(&mut block, 3 * RECORD_SIZE);
    let ghost before = block@;
    block.push(0x55);
    block.push(0xAA);
    assert(block@ =~= before + seq![0x55u8, 0xAAu8]);
    put_zeros(&mut block, (block_size - 512) as usize);
    block
}

/// Where the parts of a protective MBR are found again.
proof fn protective_mbr_parts(existing: Option<Seq<u8>>, block_size: u32, last_block: u64)
    requires
        block_size >= 512,
    ensures
        ({
            let b = protective_mbr(existing, block_size, last_block);
            &&& b.len() == block_size
            &&& b.take(kept(existing).len() as int) == kept(existing)
            &&& b.subrange(446, 462) == protective_bytes(last_block)
            &&& b.subrange(462, 510) == zeros(48)
            &&& b[510] == 0x55
            &&& b[511] == 0xAA
        }),
{
    let code = kept(existing);
    let a = code + zeros((446 - code.len()) as nat);
    let tail = zeros(48) + seq![0x55u8, 0xAAu8] + zeros((block_size - 512) as nat);
    let b = protective_mbr(existing, block_size, last_block);
    assert(a.len() == 446);
    assert(b =~= a + protective_bytes(last_block) + tail);
    assert(b.take(code.len() as int) =~= code);
    assert(b.subrange(446, 462) =~= protective_bytes(last_block));
    assert(b.subrange(462, 510) =~= zeros(48));
}

/// A regenerated MBR fills its block.
pub proof fn mbr_fills(existing: Option<Seq<u8>>, block_size: u32, last_block: u64)
    requires
        block_size >= 512,
    ensures
        protective_mbr(existing, block_size, last_block).len() == block_size,
{
    protective_mbr_parts(existing, block_size, last_block);
}

/// Whatever was at LBA 0 before, a regenerated MBR is recognised as the
/// protective MBR of the disk it was made for.
pub proof fn generated_mbr_is_protective(
    existing: Option<Seq<u8>>,
    block_size: u32,
    last_block: u64,
)
    requires
        block_size >= 512,
    ensures
        status_of(protective_mbr(existing, block_size, last_block), last_block)
            == MbrStatus::Protective,
{
    let b = protective_mbr(existing, block_size, last_block);
    protective_mbr_parts(existing, block_size, last_block);
    let rec = b.subrange(446, 462);
    assert(le16(b, 510) == MBR_BOOT_SIGNATURE) by {
        reveal(le16);
    }
    assert(b[450] == rec[4]);
    assert(b.subrange(454, 458) =~= bytes32(1)) by {
        assert(b.subrange(454, 458) =~= rec.subrange(8, 12));
        assert(rec.subrange(8, 12) =~= bytes32(1));
    }
    le32_reads_bytes32(b, 454, 1);
    assert(b.subrange(458, 462) =~= bytes32(covering_size(last_block))) by {
        assert(b.subrange(458, 462) =~= rec.subrange(12, 16));
        assert(rec.subrange(12, 16) =~= bytes32(covering_size(last_block)));
    }
    le32_reads_bytes32(b, 458, covering_size(last_block));
    assert forall|i: int| 0 <= i < 4 && i != 0 implies #[trigger] empty_at(b, i) by {
        let at = 446 + 16 * i;
        assert forall|k: int| 462 <= k < 510 implies b[k] == 0 by {
            assert(b.subrange(462, 510)[k - 462] == zeros(48)[k - 462]);
        }
        reveal(le16);
        reveal(le32);
        assert(b[at + 4] == 0);
        assert(le32(b, at + 8) == 0);
        assert(le32(b, at + 12) == 0);
    }
}

/// Regenerating an MBR leaves its boot code and its disk signature, the first
/// 444 bytes, as they were.
pub proof fn boot_code_survives(existing: Seq<u8>, block_size: u32, last_block: u64)
    requires
        block_size >= 512,
        existing.len() >= 444,
    ensures
        protective_mbr(Some(existing), block_size, last_block).take(444) == existing.take(444),
{
    protective_mbr_parts(Some(existing), block_size, last_block);
}

/// What the first block of a disk is, in its bytes: it protects the disk if it
/// is signed and has exactly one record that is not empty, of type 0xEE, from
/// block 1 to the end of the disk as far as 32 bits count. A second record
/// beside an 0xEE one makes it hybrid, wherever either stands. Without the
/// signature, or without an 0xEE record, there is no protective MBR.
pub proof fn an_mbr_is_judged_by_its_records(b: Seq<u8>, last_block: u64, k: int)
    requires
        b.len() >= 512,
        0 <= k < 4,
        b[450 + 16 * k] == 0xEE,
        forall|i: int| 0 <= i < k ==> #[trigger] b[450 + 16 * i] != 0xEE,
    ensures
        ({
            let signed = b[510] == 0x55 && b[511] == 0xAA;
            let alone = forall|i: int|
                0 <= i < 4 && i != k ==> #[trigger] b[450 + 16 * i] == 0 && le32(b, 454 + 16 * i)
                    == 0 && le32(b, 458 + 16 * i) == 0;
            let start = le32(b, 454 + 16 * k);
            let size = le32(b, 458 + 16 * k);
            let whole = if last_block <= 0xFFFF_FFFF {
                last_block as int
            } else {
                0xFFFF_FFFF
            };
            let status = status_of(b, last_block);
            &&& status == MbrStatus::Absent <==> !signed
            &&& status == MbrStatus::Hybrid <==> signed && !alone
            &&& status == MbrStatus::Protective <==> signed && alone && start == 1 && size == whole
            &&& status is WrongStart <==> signed && alone && start != 1
            &&& status is WrongSize <==> signed && alone && start == 1 && size != whole
            &&& status.repairable() <==> status != MbrStatus::Protective && status
                != MbrStatus::Hybrid
        }),
{
    reveal(le16);
    assert(le16(b, 510) == 0xAA55 <==> b[510] == 0x55 && b[511] == 0xAA);
    assert(forall|i: int| 0 <= i < 4 ==> #[trigger] type_at(b, i) == b[450 + 16 * i]);
    assert(type_at(b, 0) == b[450] && type_at(b, 1) == b[466] && type_at(b, 2) == b[482] && type_at(
        b,
        3,
    ) == b[498]);
    assert(b[450 + 16 * 0int] == b[450]);
    assert(b[450 + 16 * 1int] == b[466]);
    assert(b[450 + 16 * 2int] == b[482]);
    assert(b[450 + 16 * 3int] == b[498]);
    assert(protective_index(b) == k);
    assert forall|i: int| 0 <= i < 4 implies #[trigger] empty_at(b, i) == (b[450 + 16 * i] == 0
        && le32(b, 454 + 16 * i) == 0 && le32(b, 458 + 16 * i) == 0) by {}
    if exists|i: int| 0 <= i < 4 && i != k && !#[trigger] empty_at(b, i) {
        let i = choose|i: int| 0 <= i < 4 && i != k && !#[trigger] empty_at(b, i);
        assert(!(b[450 + 16 * i] == 0 && le32(b, 454 + 16 * i) == 0 && le32(b, 458 + 16 * i) == 0));
    } else {
        assert forall|i: int| 0 <= i < 4 && i != k implies #[trigger] b[450 + 16 * i] == 0 && le32(
            b,
            454 + 16 * i,
        ) == 0 && le32(b, 458 + 16 * i) == 0 by {
            assert(empty_at(b, i));
        }
    }
}

/// A block with no 0xEE record, or too short to be one, is no protective MBR.
pub proof fn without_a_protective_record_there_is_no_mbr(b: Seq<u8>, last_block: u64)
    requires
        b.len() < 512 || forall|i: int| 0 <= i < 4 ==> #[trigger] b[450 + 16 * i] != 0xEE,
    ensures
        status_of(b, last_block) == MbrStatus::Absent,
{
    if b.len() >= 512 {
        assert(b[450 + 16 * 0int] != 0xEE);
        assert(b[450 + 16 * 1int] != 0xEE);
        assert(b[450 + 16 * 2int] != 0xEE);
        assert(b[450 + 16 * 3int] != 0xEE);
    }
}

/// A regenerated MBR, byte for byte behind what it keeps: one 0xEE record from
/// block 1 to the end of the disk, no other, the signature, and zeros.
pub proof fn a_regenerated_mbr_has_one_record(
    existing: Option<Seq<u8>>,
    block_size: u32,
    last_block: u64,
)
    requires
        block_size >= 512,
    ensures
        ({
            let b = protective_mbr(existing, block_size, last_block);
            let n = match existing {
                Some(old) => if old.len() >= 444 {
                    444int
                } else {
                    old.len() as int
                },
                None => 0,
            };
            &&& b.len() == block_size
            &&& existing matches Some(old) ==> b.take(n) == old.take(n)
            &&& forall|i: int| n <= i < 446 ==> #[trigger] b[i] == 0
            &&& b[446] == 0 && b[450] == 0xEE
            &&& le32(b, 454) == 1
            &&& le32(b, 458) == (if last_block <= 0xFFFF_FFFF {
                last_block as int
            } else {
                0xFFFF_FFFF
            })
            &&& forall|i: int| 462 <= i < 510 ==> #[trigger] b[i] == 0
            &&& b[510] == 0x55 && b[511] == 0xAA
            &&& forall|i: int| 512 <= i < block_size ==> #[trigger] b[i] == 0
        }),
{
    let b = protective_mbr(existing, block_size, last_block);
    protective_mbr_parts(existing, block_size, last_block);
    let rec = b.subrange(446, 462);
    assert(b[446] == rec[0]);
    assert(b[450] == rec[4]);
    assert(b.subrange(454, 458) =~= rec.subrange(8, 12));
    assert(rec.subrange(8, 12) =~= bytes32(1));
    le32_reads_bytes32(b, 454, 1);
    assert(b.subrange(458, 462) =~= rec.subrange(12, 16));
    assert(rec.subrange(12, 16) =~= bytes32(covering_size(last_block)));
    le32_reads_bytes32(b, 458, covering_size(last_block));
    assert forall|i: int| 462 <= i < 510 implies #[trigger] b[i] == 0 by {
        assert(b.subrange(462, 510)[i - 462] == zeros(48)[i - 462]);
    }
    if let Some(old) = existing {
        let n = if old.len() >= 444 {
            444int
        } else {
            old.len() as int
        };
        assert(kept(existing).len() == n);
        assert(old.take(n) =~= kept(existing));
    }
}

} // verus!
