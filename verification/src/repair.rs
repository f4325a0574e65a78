//! Reading both tables, deciding what is wrong, and planning the fix.
//!
//! The output of [`plan`] is an ordered list of [`Step`]s. Nothing here
//! performs I/O for the repair itself, so the ordering guarantee (entry
//! array durable before any header points at it) is a data structure that
//! can be reasoned about, not a convention in a comment.

use crate::bytes::{copied, le16, le32, le64, put_zeros, zeros};
use crate::crc::{crc32_of, Crc32};
use crate::disk::{on_disk, read_range, reply_of, BlockDevice, IoError, Op};
use crate::entry::{array_holds, copied_entries, parse_array, PartitionEntry};
use crate::header::{Defect, GptHeader, HEADER_MIN_SIZE};
use crate::layout::{
    a_table_without_its_esp_or_root_is_not_recognised, any_used, structure_is_clean, Kind,
    check_structure, recognition, recognize, structure_issues, Confidence, Recognition,
    RecognitionView, StructuralIssue,
};
use crate::mbr::{generate, inspect, protective_mbr, status_of, MbrStatus};
use crate::text::{dec, dec_text};
use vstd::prelude::*;

verus! {

// ------------------------------------------------------------- one table

/// One table (header plus its entry array) as found on disk.
#[derive(Clone, Debug)]
pub struct TableView {
    pub header: GptHeader,
    /// The block the header was read from.
    pub raw: Vec<u8>,
    /// Entry array bytes, truncated to the header's declared length.
    pub entries_raw: Vec<u8>,
    pub entries: Vec<PartitionEntry>,
    pub defects: Vec<Defect>,
    /// Set if the entry array could not be read; the header may still be
    /// intact, but its array CRC could not be checked.
    pub entries_error: Option<IoError>,
}

/// The first `n` bytes, or all of them if there are fewer.
pub open spec fn prefix(b: Seq<u8>, n: int) -> Seq<u8> {
    if b.len() <= n {
        b
    } else {
        b.take(n)
    }
}

/// The entries in use, with their positions.
pub open spec fn used_among(entries: Seq<PartitionEntry>, n: nat) -> Seq<(usize, PartitionEntry)>
    decreases n,
{
    if n == 0 {
        Seq::empty()
    } else {
        let rest = used_among(entries, (n - 1) as nat);
        if entries[n - 1].used() {
            rest.push(((n - 1) as usize, entries[n - 1]))
        } else {
            rest
        }
    }
}

/// Borrowed entries as values.
pub open spec fn listed(v: Seq<(usize, &PartitionEntry)>) -> Seq<(usize, PartitionEntry)> {
    Seq::new(v.len(), |i: int| (v[i].0, *v[i].1))
}

impl TableView {
    /// Nothing is wrong with it.
    pub open spec fn valid(self) -> bool {
        self.defects@.len() == 0 && self.entries_error is None
    }

    pub fn is_valid(&self) -> (r: bool)
        ensures
            r == self.valid(),
    {
        self.defects.len() == 0 && self.entries_error.is_none()
    }

    /// Everything checks out except the alternate pointer.
    pub open spec fn misdirected(self) -> bool {
        &&& self.entries_error is None
        &&& self.defects@.len() > 0
        &&& forall|i: int|
            0 <= i < self.defects@.len() ==> #[trigger] self.defects@[i] is AlternateLbaWrongForRole
    }

    /// Everything checks out except the alternate pointer.
    ///
    /// The one defect a header can carry while its entry array, CRCs and
    /// geometry are all still trustworthy, so it can still serve as a
    /// repair source, provided the repair also writes it back corrected.
    pub fn only_wrong_alternate(&self) -> (r: bool)
        ensures
            r == self.misdirected(),
    {
        if self.entries_error.is_some() || self.defects.len() == 0 {
            return false;
        }
        let mut i: usize = 0;
        while i < self.defects.len()
            invariant
                i <= self.defects.len(),
                forall|j: int|
                    0 <= j < i ==> #[trigger] self.defects@[j] is AlternateLbaWrongForRole,
            decreases self.defects.len() - i,
        {
            match self.defects[i] {
                Defect::AlternateLbaWrongForRole { .. } => {},
                _ => return false,
            }
            i += 1;
        }
        true
    }

    pub fn used_entries(&self) -> (r: Vec<(usize, &PartitionEntry)>)
        ensures
            listed(r@) == used_among(self.entries@, self.entries@.len()),
    {
        let mut out: Vec<(usize, &PartitionEntry)> = Vec::new();
        let mut i: usize = 0;
        assert(listed(out@) =~= used_among(self.entries@, 0));
        while i < self.entries.len()
            invariant
                i <= self.entries.len(),
                listed(out@) == used_among(self.entries@, i as nat),
            decreases self.entries.len() - i,
        {
            if self.entries[i].is_used() {
                let ghost before = listed(out@);
                out.push((i, &self.entries[i]));
                assert(listed(out@) =~= before.push((i, self.entries@[i as int])));
            }
            i += 1;
        }
        out
    }

    /// The array bytes kept of what came back for the entry array.
    pub open spec fn kept(header: GptHeader, array: Option<Result<Seq<u8>, IoError>>) -> Seq<u8> {
        match (header.array_len(), array) {
            (Some(len), Some(Ok(b))) => prefix(b, len as int),
            _ => Seq::empty(),
        }
    }

    /// The failure to remember of what came back for the entry array.
    pub open spec fn failure(
        header: GptHeader,
        array: Option<Result<Seq<u8>, IoError>>,
    ) -> Option<IoError> {
        match (header.array_len(), array) {
            (Some(len), Some(Err(e))) => Some(e),
            _ => None,
        }
    }

    /// This is the table read from LBA `read_from`: `raw` is the header
    /// block, `array` what came back for the entry array, if it was asked
    /// for.
    pub open spec fn built_from(
        self,
        raw: Seq<u8>,
        array: Option<Result<Seq<u8>, IoError>>,
        read_from: u64,
        last_block: u64,
        block_size: u32,
    ) -> bool {
        &&& self.header.parsed_from(raw)
        &&& self.raw@ == raw
        &&& self.entries_raw@ == Self::kept(self.header, array)
        &&& self.entries_error == Self::failure(self.header, array)
        &&& array_holds(
            self.entries@,
            self.entries_raw@,
            self.header.number_of_partition_entries,
            self.header.size_of_partition_entry,
        )
        &&& self.defects@ == self.header.defects(
            raw,
            if self.entries_raw@.len() > 0 {
                Some(self.entries_raw@)
            } else {
                None
            },
            read_from,
            last_block,
            block_size,
        )
    }
}

/// What came back for an entry array, as a value.
pub open spec fn array_reply(array: Option<Result<Vec<u8>, IoError>>) -> Option<
    Result<Seq<u8>, IoError>,
> {
    match array {
        Some(r) => Some(reply_of(r)),
        None => None,
    }
}

/// Assemble the table whose header block is `raw`. `None` if the block is
/// too short to hold a header.
pub fn table_of(
    raw: Vec<u8>,
    array: Option<Result<Vec<u8>, IoError>>,
    read_from: u64,
    last_block: u64,
    block_size: u32,
    crc: &impl Crc32,
) -> (r: Option<TableView>)
    ensures
        r is Some == (raw@.len() >= HEADER_MIN_SIZE),
        r matches Some(t) ==> t.built_from(
            raw@,
            array_reply(array),
            read_from,
            last_block,
            block_size,
        ),
{
    let header = GptHeader::parse(raw.as_slice())?;
    let mut entries_raw: Vec<u8> = Vec::new();
    let mut entries_error: Option<IoError> = None;
    if let Some(len) = header.entry_array_len() {
        match array {
            Some(Ok(bytes)) => {
                entries_raw = bytes;
                if entries_raw.len() > len {
                    entries_raw.truncate(len);
                    assert(entries_raw@ =~= bytes@.take(len as int));
                }
            },
            Some(Err(e)) => {
                entries_error = Some(e);
            },
            None => {},
        }
    }
    assert(entries_raw@ == TableView::kept(header, array_reply(array)));
    let entries = parse_array(
        entries_raw.as_slice(),
        header.number_of_partition_entries,
        header.size_of_partition_entry,
    );
    let defects = if entries_raw.len() > 0 {
        header.validate(
            raw.as_slice(),
            Some(entries_raw.as_slice()),
            read_from,
            last_block,
            block_size,
            crc,
        )
    } else {
        header.validate(raw.as_slice(), None, read_from, last_block, block_size, crc)
    };
    Some(TableView { header, raw, entries_raw, entries, defects, entries_error })
}

/// The call failed, for this reason.
pub open spec fn failed_with<T>(r: Result<T, IoError>, e: IoError) -> bool {
    r is Err && r->Err_0 == e
}

/// What reading the table at `lba` asks of the device, and what it comes to.
///
/// The header block is asked for; the entry array only if the header
/// declares a geometry that makes sense, so a corrupt header cannot drive
/// the read. `before` and `after` are the device's trace around the call.
pub open spec fn table_read(
    before: Seq<Op>,
    after: Seq<Op>,
    lba: u64,
    last_block: u64,
    block_size: u32,
    r: Result<TableView, IoError>,
) -> bool {
    let n = before.len() as int;
    if !on_disk(block_size, last_block, lba, 1) {
        after == before && failed_with(r, IoError::OutOfRange)
    } else {
        &&& after.len() > n
        &&& after.take(n) == before
        &&& after[n] matches Op::Read { lba: at, len, reply } && at == lba && len == block_size
            && match reply {
            Err(e) => after.len() == n + 1 && failed_with(r, e),
            Ok(raw) => if raw.len() < HEADER_MIN_SIZE {
                after.len() == n + 1 && failed_with(r, IoError::DeviceError)
            } else {
                r matches Ok(t) && array_read(after, n + 1, raw, t, lba, last_block, block_size)
            },
        }
    }
}

/// The second half of [`table_read`]: the entry array.
pub open spec fn array_read(
    after: Seq<Op>,
    n: int,
    raw: Seq<u8>,
    t: TableView,
    lba: u64,
    last_block: u64,
    block_size: u32,
) -> bool {
    let at = t.header.partition_entry_lba;
    match t.header.array_blocks(block_size) {
        None => after.len() == n && t.built_from(raw, None, lba, last_block, block_size),
        Some(blocks) => if on_disk(block_size, last_block, at, blocks) {
            &&& after.len() == n + 1
            &&& after[n] matches Op::Read { lba: from, len, reply } && from == at && len == blocks
                * block_size && t.built_from(raw, Some(reply), lba, last_block, block_size) && (
            reply matches Ok(b) ==> b.len() == blocks * block_size)
        } else {
            after.len() == n && t.built_from(
                raw,
                Some(Err(IoError::OutOfRange)),
                lba,
                last_block,
                block_size,
            )
        },
    }
}

/// Read the header at `lba` and the entry array it points at.
fn read_table<D: BlockDevice + ?Sized>(
    dev: &mut D,
    block_size: u32,
    last_block: u64,
    lba: u64,
    crc: &impl Crc32,
) -> (r: Result<TableView, IoError>)
    ensures
        table_read(old(dev).trace(), final(dev).trace(), lba, last_block, block_size, r),
{
    let ghost start = dev.trace();
    let raw = match read_range(dev, block_size, last_block, lba, 1) {
        Ok(raw) => raw,
        Err(e) => {
            assert(dev.trace().len() > start.len() ==> dev.trace().take(start.len() as int)
                =~= start);
            return Err(e);
        },
    };
    let ghost first = dev.trace();
    assert(first.take(start.len() as int) =~= start);
    let header = match GptHeader::parse(raw.as_slice()) {
        Some(header) => header,
        None => return Err(IoError::DeviceError),
    };
    let array: Option<Result<Vec<u8>, IoError>> = match header.entry_array_blocks(block_size) {
        Some(blocks) => Some(
            read_range(dev, block_size, last_block, header.partition_entry_lba, blocks),
        ),
        None => None,
    };
    assert(dev.trace().take(start.len() as int) =~= start);
    assert(dev.trace()[start.len() as int] == first[start.len() as int]);
    match table_of(raw, array, lba, last_block, block_size, crc) {
        Some(table) => {
            proof {
                header.parsed_from_is_unique(table.header, raw@);
            }
            Ok(table)
        },
        None => Err(IoError::DeviceError),
    }
}

// ------------------------------------------------------------ the decision

#[derive(Clone, Copy, PartialEq, Eq, Structural, Debug)]
pub enum Verdict {
    /// Both tables valid, protective MBR correct. Exit without writing.
    Healthy,
    /// Both tables valid but the protective MBR needs regenerating.
    MbrOnly,
    /// Main GPT bad, secondary good and plausible. The case this tool
    /// exists for.
    MainRepairable,
    /// Main GPT good, secondary bad. Not what breaks booting, so out of
    /// scope here, but worth telling the operator about.
    SecondaryDegraded,
    /// Neither table is usable. A rescue USB is the only option left.
    Unrecoverable,
    /// A hybrid MBR is present. Some legacy OS depends on that view and
    /// we will not touch the disk.
    RefusedHybridMbr,
    /// The secondary GPT parses, but the table it describes fails sanity
    /// checks.
    RefusedImplausibleSecondary,
}

impl Verdict {
    /// Acting on it writes to the disk.
    pub open spec fn writes(self) -> bool {
        self == Verdict::MbrOnly || self == Verdict::MainRepairable
    }

    pub fn will_write(&self) -> (r: bool)
        ensures
            r == self.writes(),
    {
        match self {
            Verdict::MbrOnly | Verdict::MainRepairable => true,
            _ => false,
        }
    }
}

/// Why the secondary GPT was rejected as a repair source.
#[derive(Clone, Debug)]
pub enum Implausible {
    Structure(Vec<StructuralIssue>),
    /// No ESP or no rootfs: this is not a bootable SteamOS table.
    /// Boxed to keep the error small.
    Unrecognized(Box<Recognition>),
    /// The entry array would not fit between LBA 2 and the first usable
    /// block, so writing it would overwrite the start of a partition.
    EntryArrayCollides { entry_blocks: u64, first_usable: u64 },
}

/// An [`Implausible`] as a value.
pub enum ImplausibleView {
    Structure(Seq<StructuralIssue>),
    Unrecognized(RecognitionView),
    EntryArrayCollides { entry_blocks: u64, first_usable: u64 },
}

impl View for Implausible {
    type V = ImplausibleView;

    open spec fn view(&self) -> ImplausibleView {
        match self {
            Implausible::Structure(issues) => ImplausibleView::Structure(issues@),
            Implausible::Unrecognized(rec) => ImplausibleView::Unrecognized(rec@),
            Implausible::EntryArrayCollides {
                entry_blocks,
                first_usable,
            } => ImplausibleView::EntryArrayCollides {
                entry_blocks: *entry_blocks,
                first_usable: *first_usable,
            },
        }
    }
}

#[derive(Debug)]
pub struct Analysis {
    pub block_size: u32,
    pub last_block: u64,
    pub mbr_raw: Vec<u8>,
    pub mbr: MbrStatus,
    pub main: Result<TableView, IoError>,
    pub secondary: Result<TableView, IoError>,
    pub verdict: Verdict,
    /// Sanity results for whichever table would be the repair source.
    pub recognition: Option<Recognition>,
    pub rejection: Option<Implausible>,
}

/// The table was read and nothing is wrong with it.
pub open spec fn sound(r: Result<TableView, IoError>) -> bool {
    r matches Ok(t) && t.valid()
}

/// The table was read and can be repaired from.
pub open spec fn usable(r: Result<TableView, IoError>) -> bool {
    r matches Ok(t) && (t.valid() || t.misdirected())
}

/// The blocks an entry array would take at LBA 2, saturated where the
/// geometry is unusable.
pub open spec fn blocks_needed(t: TableView, block_size: u32) -> u64 {
    match t.header.array_blocks(block_size) {
        Some(blocks) => blocks,
        None => u64::MAX,
    }
}

/// The entry array would run into the first partition.
pub open spec fn array_collides(t: TableView, block_size: u32) -> bool {
    let end = 2 + blocks_needed(t, block_size);
    (if end <= u64::MAX {
        end
    } else {
        u64::MAX as int
    }) > t.header.first_usable_lba
}

/// Whether a table is a plausible repair source, and if not why not.
pub open spec fn assessment(t: TableView, block_size: u32) -> Result<
    RecognitionView,
    ImplausibleView,
> {
    let issues = structure_issues(
        t.entries@,
        t.header.first_usable_lba,
        t.header.last_usable_lba,
    );
    let rec = recognition(t.entries@);
    if issues.len() > 0 {
        Err(ImplausibleView::Structure(issues))
    } else if array_collides(t, block_size) {
        Err(
            ImplausibleView::EntryArrayCollides {
                entry_blocks: blocks_needed(t, block_size),
                first_usable: t.header.first_usable_lba,
            },
        )
    } else if rec.confidence == Confidence::Unrecognized {
        Err(ImplausibleView::Unrecognized(rec))
    } else {
        Ok(rec)
    }
}

/// The secondary is needed as a repair source, and can be one.
pub open spec fn source_needed(
    mbr: MbrStatus,
    main: Result<TableView, IoError>,
    secondary: Result<TableView, IoError>,
) -> bool {
    mbr != MbrStatus::Hybrid && !sound(main) && usable(secondary)
}

/// What to do about a disk in this state.
pub open spec fn verdict_of(
    mbr: MbrStatus,
    main: Result<TableView, IoError>,
    secondary: Result<TableView, IoError>,
    block_size: u32,
) -> Verdict {
    if mbr == MbrStatus::Hybrid {
        Verdict::RefusedHybridMbr
    } else if sound(main) && sound(secondary) {
        if mbr.repairable() {
            Verdict::MbrOnly
        } else {
            Verdict::Healthy
        }
    } else if sound(main) {
        Verdict::SecondaryDegraded
    } else if !usable(secondary) {
        Verdict::Unrecoverable
    } else if assessment(secondary->Ok_0, block_size) is Ok {
        Verdict::MainRepairable
    } else {
        Verdict::RefusedImplausibleSecondary
    }
}

impl Analysis {
    /// The sanity results that go with the verdict.
    pub open spec fn expected_recognition(self) -> Option<RecognitionView> {
        if source_needed(self.mbr, self.main, self.secondary) {
            match assessment(self.secondary->Ok_0, self.block_size) {
                Ok(rec) => Some(rec),
                Err(ImplausibleView::Unrecognized(rec)) => Some(rec),
                Err(_) => None,
            }
        } else {
            None
        }
    }

    /// The rejection that goes with the verdict.
    pub open spec fn expected_rejection(self) -> Option<ImplausibleView> {
        if source_needed(self.mbr, self.main, self.secondary) {
            match assessment(self.secondary->Ok_0, self.block_size) {
                Ok(_) => None,
                Err(why) => Some(why),
            }
        } else {
            None
        }
    }

    /// The conclusions are the ones the evidence calls for.
    pub open spec fn decided(self) -> bool {
        &&& self.mbr == status_of(self.mbr_raw@, self.last_block)
        &&& self.verdict == verdict_of(self.mbr, self.main, self.secondary, self.block_size)
        &&& match self.recognition {
            Some(rec) => Some(rec@) == self.expected_recognition(),
            None => self.expected_recognition() is None,
        }
        &&& match self.rejection {
            Some(why) => Some(why@) == self.expected_rejection(),
            None => self.expected_rejection() is None,
        }
    }

    /// Whichever table is worth believing.
    pub open spec fn best(self) -> Option<TableView> {
        if sound(self.main) {
            Some(self.main->Ok_0)
        } else if sound(self.secondary) {
            Some(self.secondary->Ok_0)
        } else if self.main is Ok {
            Some(self.main->Ok_0)
        } else if self.secondary is Ok {
            Some(self.secondary->Ok_0)
        } else {
            None
        }
    }

    /// Whichever table is worth believing, for purposes that only want to
    /// look at the partitions: identifying the disk in a picker, say.
    /// Prefers the main GPT, falls back to the secondary, and settles for
    /// a damaged main rather than nothing.
    pub fn best_view(&self) -> (r: Option<&TableView>)
        ensures
            r is Some == self.best() is Some,
            r matches Some(t) ==> Some(*t) == self.best(),
    {
        if let Ok(t) = &self.main {
            if t.is_valid() {
                return Some(t);
            }
        }
        if let Ok(t) = &self.secondary {
            if t.is_valid() {
                return Some(t);
            }
        }
        if let Ok(t) = &self.main {
            return Some(t);
        }
        if let Ok(t) = &self.secondary {
            return Some(t);
        }
        None
    }

    /// The table a repair would be built from.
    pub fn source(&self) -> (r: Option<&TableView>)
        ensures
            r is Some == (self.verdict == Verdict::MainRepairable && self.secondary is Ok),
            r matches Some(t) ==> *t == self.secondary->Ok_0,
    {
        match self.verdict {
            Verdict::MainRepairable => match &self.secondary {
                Ok(t) => Some(t),
                Err(_) => None,
            },
            _ => None,
        }
    }
}

/// Decide whether a valid table is a plausible repair source.
fn assess(src: &TableView, block_size: u32) -> (r: Result<Recognition, Implausible>)
    ensures
        match r {
            Ok(rec) => assessment(*src, block_size) == Ok::<RecognitionView, ImplausibleView>(rec@),
            Err(why) => assessment(*src, block_size) == Err::<RecognitionView, ImplausibleView>(
                why@,
            ),
        },
{
    let issues = check_structure(
        src.entries.as_slice(),
        src.header.first_usable_lba,
        src.header.last_usable_lba,
    );
    if issues.len() > 0 {
        return Err(Implausible::Structure(issues));
    }
    // The main entry array lands at LBA 2. If it would run into the first
    // partition, writing it would destroy data.
    let entry_blocks: u64 = match src.header.entry_array_blocks(block_size) {
        Some(blocks) => blocks,
        None => u64::MAX,
    };
    if entry_blocks.saturating_add(2) > src.header.first_usable_lba {
        return Err(
            Implausible::EntryArrayCollides {
                entry_blocks,
                first_usable: src.header.first_usable_lba,
            },
        );
    }
    let rec = recognize(src.entries.as_slice());
    if rec.confidence == Confidence::Unrecognized {
        return Err(Implausible::Unrecognized(Box::new(rec)));
    }
    Ok(rec)
}

/// Decide what to do about a disk, from what was read off it.
pub fn decide(
    block_size: u32,
    last_block: u64,
    mbr_raw: Vec<u8>,
    main: Result<TableView, IoError>,
    secondary: Result<TableView, IoError>,
) -> (r: Analysis)
    ensures
        r.decided(),
        r.block_size == block_size,
        r.last_block == last_block,
        r.mbr_raw == mbr_raw,
        r.main == main,
        r.secondary == secondary,
{
    let mbr = inspect(mbr_raw.as_slice(), last_block);
    let main_ok = match &main {
        Ok(t) => t.is_valid(),
        Err(_) => false,
    };
    let secondary_ok = match &secondary {
        Ok(t) => t.is_valid(),
        Err(_) => false,
    };
    let mut found: Option<Recognition> = None;
    let mut rejection: Option<Implausible> = None;
    let verdict = if mbr == MbrStatus::Hybrid {
        Verdict::RefusedHybridMbr
    } else if main_ok && secondary_ok {
        if mbr.needs_repair() {
            Verdict::MbrOnly
        } else {
            Verdict::Healthy
        }
    } else if main_ok {
        Verdict::SecondaryDegraded
    } else {
        match &secondary {
            // A secondary whose sole defect is a wrong alternate pointer is
            // still a trustworthy source, since its array CRC holds, and the
            // plan rewrites it corrected alongside the rebuilt main.
            Ok(src) => if secondary_ok || src.only_wrong_alternate() {
                match assess(src, block_size) {
                    Ok(rec) => {
                        found = Some(rec);
                        Verdict::MainRepairable
                    },
                    Err(why) => {
                        if let Implausible::Unrecognized(rec) = &why {
                            found = Some(rec.copy());
                        }
                        rejection = Some(why);
                        Verdict::RefusedImplausibleSecondary
                    },
                }
            } else {
                Verdict::Unrecoverable
            },
            Err(_) => Verdict::Unrecoverable,
        }
    };
    Analysis {
        block_size,
        last_block,
        mbr_raw,
        mbr,
        main,
        secondary,
        verdict,
        recognition: found,
        rejection,
    }
}

/// What analysing a disk asks of the device, and what it comes to: the block
/// at LBA 0, then the main table, then the secondary one. Nothing is ever
/// written.
pub open spec fn analysis_read(
    before: Seq<Op>,
    after: Seq<Op>,
    block_size: u32,
    last_block: u64,
    r: Result<Analysis, IoError>,
) -> bool {
    let n = before.len() as int;
    if !on_disk(block_size, last_block, 0, 1) {
        after == before && failed_with(r, IoError::OutOfRange)
    } else {
        &&& after.len() > n
        &&& after[n] matches Op::Read { lba, len, reply } && lba == 0 && len == block_size
            && match reply {
            Err(e) => after == before.push(after[n]) && failed_with(r, e),
            Ok(raw) => r matches Ok(a) && a.decided() && a.block_size == block_size && a.last_block
                == last_block && a.mbr_raw@ == raw && exists|mid: Seq<Op>| #[trigger]
                table_read(before.push(after[n]), mid, 1, last_block, block_size, a.main)
                    && table_read(mid, after, last_block, last_block, block_size, a.secondary),
        }
    }
}

/// Read the disk and decide what, if anything, to do.
pub fn analyze<D: BlockDevice + ?Sized>(dev: &mut D, crc: &impl Crc32) -> (r: Result<
    Analysis,
    IoError,
>)
    ensures
        analysis_read(
            old(dev).trace(),
            final(dev).trace(),
            old(dev).blocks_of(),
            old(dev).last_of(),
            r,
        ),
{
    let block_size: u32 = dev.block_size();
    let last_block: u64 = dev.last_block();
    let ghost start = dev.trace();
    let mbr_raw = match read_range(dev, block_size, last_block, 0, 1) {
        Ok(raw) => raw,
        Err(e) => return Err(e),
    };
    let ghost first = dev.trace();
    let main = read_table(dev, block_size, last_block, 1, crc);
    let ghost mid = dev.trace();
    let secondary = read_table(dev, block_size, last_block, last_block, crc);
    let ghost end = dev.trace();
    proof {
        let n = start.len() as int;
        table_read_extends(first, mid, 1, last_block, block_size, main);
        table_read_extends(mid, end, last_block, last_block, block_size, secondary);
        assert(mid.take(first.len() as int)[n] == first[n]);
        assert(end.take(mid.len() as int)[n] == mid[n]);
        assert(start.push(end[n]) =~= first);
    }
    Ok(decide(block_size, last_block, mbr_raw, main, secondary))
}

/// Reading a table only adds to the trace.
proof fn table_read_extends(
    before: Seq<Op>,
    after: Seq<Op>,
    lba: u64,
    last_block: u64,
    block_size: u32,
    r: Result<TableView, IoError>,
)
    requires
        table_read(before, after, lba, last_block, block_size, r),
    ensures
        after.len() >= before.len(),
        after.take(before.len() as int) == before,
{
    assert(before.take(before.len() as int) =~= before);
}

// ---------------------------------------------------------------- the plan

/// One durable operation. Order within a [`RepairPlan`] is significant.
#[derive(Clone, Debug)]
pub enum Step {
    Write { lba: u64, data: Vec<u8>, what: String },
    /// A barrier. The preceding writes must reach the medium before any
    /// that follow.
    Flush { why: &'static str },
}

/// A [`Step`] as a value.
pub enum StepView {
    Write { lba: u64, data: Seq<u8>, what: Seq<char> },
    Flush { why: Seq<char> },
}

impl View for Step {
    type V = StepView;

    open spec fn view(&self) -> StepView {
        match self {
            Step::Write { lba, data, what } => StepView::Write {
                lba: *lba,
                data: data@,
                what: what@,
            },
            Step::Flush { why } => StepView::Flush { why: why@ },
        }
    }
}

/// A list of steps, as values.
pub open spec fn steps_of(steps: Seq<Step>) -> Seq<StepView> {
    Seq::new(steps.len(), |i: int| steps[i]@)
}

#[derive(Clone, Debug)]
pub struct RepairPlan {
    pub steps: Vec<Step>,
    /// The header that will be written to LBA 1.
    pub header: GptHeader,
    /// The table as it will stand afterwards.
    pub entries: Vec<PartitionEntry>,
}

/// A [`RepairPlan`] as a value.
#[verifier::ext_equal]
pub struct PlanView {
    pub steps: Seq<StepView>,
    pub header: GptHeader,
    pub entries: Seq<PartitionEntry>,
}

impl View for RepairPlan {
    type V = PlanView;

    open spec fn view(&self) -> PlanView {
        PlanView { steps: steps_of(self.steps@), header: self.header, entries: self.entries@ }
    }
}

/// The writes among `steps`: where, and what is said of each.
pub open spec fn writes_among(steps: Seq<StepView>) -> Seq<(u64, Seq<char>)>
    decreases steps.len(),
{
    if steps.len() == 0 {
        Seq::empty()
    } else {
        let rest = writes_among(steps.drop_last());
        match steps.last() {
            StepView::Write { lba, data, what } => rest.push((lba, what)),
            StepView::Flush { why } => rest,
        }
    }
}

/// Borrowed writes as values.
pub open spec fn writes_of(v: Seq<(u64, &String)>) -> Seq<(u64, Seq<char>)> {
    Seq::new(v.len(), |i: int| (v[i].0, v[i].1@))
}

impl RepairPlan {
    pub fn writes(&self) -> (r: Vec<(u64, &String)>)
        ensures
            writes_of(r@) == writes_among(steps_of(self.steps@)),
    {
        let mut out: Vec<(u64, &String)> = Vec::new();
        let mut i: usize = 0;
        assert(writes_of(out@) =~= writes_among(steps_of(self.steps@.take(0))));
        while i < self.steps.len()
            invariant
                i <= self.steps.len(),
                writes_of(out@) == writes_among(steps_of(self.steps@.take(i as int))),
            decreases self.steps.len() - i,
        {
            let ghost before = writes_of(out@);
            assert(steps_of(self.steps@.take(i + 1)).drop_last() =~= steps_of(
                self.steps@.take(i as int),
            ));
            match &self.steps[i] {
                Step::Write { lba, what, .. } => {
                    out.push((*lba, what));
                    assert(writes_of(out@) =~= before.push((*lba, what@)));
                },
                Step::Flush { .. } => {},
            }
            i += 1;
        }
        assert(self.steps@.take(i as int) =~= self.steps@);
        out
    }
}

/// Append one step.
pub(crate) fn push_step(steps: &mut Vec<Step>, step: Step)
    ensures
        steps_of(final(steps)@) == steps_of(old(steps)@).push(step@),
{
    steps.push(step);
    assert(steps_of(steps@) =~= steps_of(old(steps)@).push(step@));
}

/// `b` cut or zero-filled to `n` bytes.
pub open spec fn resized(b: Seq<u8>, n: int) -> Seq<u8> {
    if b.len() >= n {
        b.take(n)
    } else {
        b + zeros((n - b.len()) as nat)
    }
}

pub(crate) fn resized_copy(b: &[u8], n: usize) -> (r: Vec<u8>)
    ensures
        r@ == resized(b@, n as int),
{
    if b.len() >= n {
        let r = copied(b, 0, n);
        assert(r@ =~= b@.take(n as int));
        r
    } else {
        let mut r = copied(b, 0, b.len());
        assert(r@ =~= b@);
        put_zeros(&mut r, n - b.len());
        r
    }
}

impl Analysis {
    /// A plan can be built from the secondary.
    pub open spec fn rebuildable(self) -> bool {
        &&& self.verdict == Verdict::MainRepairable
        &&& self.secondary is Ok
        &&& self.secondary->Ok_0.header.array_blocks(self.block_size) is Some
    }

    /// Carrying out the plan involves a new protective MBR.
    pub open spec fn regenerates_mbr(self) -> bool {
        self.verdict == Verdict::MbrOnly || (self.rebuildable() && self.mbr.repairable())
    }

    /// A plan can be held in memory: a protective MBR needs a block of at
    /// least 512 bytes, and the padded entry array has to fit.
    pub open spec fn plannable(self) -> bool {
        &&& self.regenerates_mbr() ==> self.block_size >= 512
        &&& self.rebuildable() ==> self.secondary->Ok_0.header.array_blocks(self.block_size)->0
            * self.block_size <= usize::MAX
    }

    /// There is something to write.
    pub open spec fn planned(self) -> bool {
        (self.verdict == Verdict::MbrOnly && self.main is Ok) || self.rebuildable()
    }

    /// Whether there is something to write.
    pub fn has_plan(&self) -> (r: bool)
        ensures
            r == self.planned(),
    {
        match self.verdict {
            Verdict::MbrOnly => self.main.is_ok(),
            Verdict::MainRepairable => match &self.secondary {
                Ok(t) => t.header.entry_array_blocks(self.block_size).is_some(),
                Err(_) => false,
            },
            _ => false,
        }
    }

    /// Whether a plan can be held in memory.
    pub fn can_plan(&self) -> (r: bool)
        ensures
            r == self.plannable(),
    {
        let array: Option<u64> = match &self.secondary {
            Ok(t) => if self.verdict == Verdict::MainRepairable {
                t.header.entry_array_blocks(self.block_size)
            } else {
                None
            },
            Err(_) => None,
        };
        if self.block_size < 512 && (self.verdict == Verdict::MbrOnly || (array.is_some()
            && self.mbr.needs_repair())) {
            return false;
        }
        match array {
            Some(blocks) => match blocks.checked_mul(self.block_size as u64) {
                Some(len) => len <= usize::MAX as u64,
                None => false,
            },
            None => true,
        }
    }

    /// The entry array as it will be written: the secondary's, padded out to
    /// a whole number of blocks.
    pub open spec fn new_array(self) -> Seq<u8> {
        let src = self.secondary->Ok_0;
        resized(
            src.entries_raw@,
            src.header.array_blocks(self.block_size)->0 * self.block_size,
        )
    }

    /// The header that will be written to LBA 1: the secondary's, with every
    /// LBA one we chose. The checksum covers the declared length of the
    /// array, not its padding.
    pub open spec fn new_header(self) -> GptHeader {
        let src = self.secondary->Ok_0;
        GptHeader {
            header_crc32: 0,
            reserved: 0,
            my_lba: 1,
            alternate_lba: self.last_block,
            partition_entry_lba: 2,
            partition_entry_array_crc32: crc32_of(
                self.new_array().take(src.header.array_len()->0 as int),
            ),
            ..src.header
        }
    }

    /// The secondary header with its pointers put right.
    pub open spec fn corrected_secondary(self) -> GptHeader {
        GptHeader {
            my_lba: self.last_block,
            alternate_lba: 1,
            ..self.secondary->Ok_0.header
        }
    }

    /// The write that regenerates the protective MBR.
    pub open spec fn mbr_step(self) -> StepView {
        StepView::Write {
            lba: 0,
            data: protective_mbr(Some(self.mbr_raw@), self.block_size, self.last_block),
            what: "protective MBR"@,
        }
    }

    /// The ordered repair.
    pub open spec fn repair_steps(self) -> Seq<StepView> {
        if self.verdict == Verdict::MbrOnly {
            seq![self.mbr_step(), StepView::Flush { why: "commit protective MBR"@ }]
        } else {
            let src = self.secondary->Ok_0;
            let array = seq![
                StepView::Write {
                    lba: 2,
                    data: self.new_array(),
                    what: "partition entry array ("@ + dec(
                        src.header.array_blocks(self.block_size)->0 as nat,
                    ) + " blocks)"@,
                },
                StepView::Flush {
                    why: "entry array must be durable before the header points at it"@,
                },
            ];
            let with_mbr = if self.mbr.repairable() {
                array.push(self.mbr_step())
            } else {
                array
            };
            let with_main = with_mbr.push(
                StepView::Write {
                    lba: 1,
                    data: self.new_header().block_bytes(self.block_size),
                    what: "main GPT header"@,
                },
            );
            let with_secondary = if src.misdirected() {
                with_main.push(
                    StepView::Write {
                        lba: self.last_block,
                        data: self.corrected_secondary().block_bytes(self.block_size),
                        what: "secondary GPT header (alternate pointer corrected)"@,
                    },
                )
            } else {
                with_main
            };
            with_secondary.push(StepView::Flush { why: "commit main GPT header"@ })
        }
    }

    /// The repair, and the table as it will stand afterwards.
    pub open spec fn repair_plan(self) -> PlanView {
        let (header, entries) = if self.verdict == Verdict::MbrOnly {
            (self.main->Ok_0.header, self.main->Ok_0.entries@)
        } else {
            (self.new_header(), self.secondary->Ok_0.entries@)
        };
        PlanView { steps: self.repair_steps(), header, entries }
    }
}

/// Build the ordered repair for an analysis, or `None` if there is nothing
/// to do or the disk was refused.
pub fn plan(analysis: &Analysis, crc: &impl Crc32) -> (r: Option<RepairPlan>)
    requires
        analysis.plannable(),
    ensures
        r is Some == analysis.planned(),
        r matches Some(p) ==> steps_of(p.steps@) == analysis.repair_steps(),
        r matches Some(p) ==> analysis.verdict == Verdict::MbrOnly ==> p.header
            == analysis.main->Ok_0.header && p.entries@ == analysis.main->Ok_0.entries@,
        r matches Some(p) ==> analysis.rebuildable() ==> p.header == analysis.new_header()
            && p.entries@ == analysis.secondary->Ok_0.entries@,
{
    match analysis.verdict {
        Verdict::MbrOnly => {
            let main = match &analysis.main {
                Ok(t) => t,
                Err(_) => return None,
            };
            let mut steps: Vec<Step> = Vec::new();
            push_step(
                &mut steps,
                Step::Write {
                    lba: 0,
                    data: generate(
                        Some(analysis.mbr_raw.as_slice()),
                        analysis.block_size,
                        analysis.last_block,
                    ),
                    what: "protective MBR".to_owned(),
                },
            );
            push_step(&mut steps, Step::Flush { why: "commit protective MBR" });
            assert(steps_of(steps@) =~= analysis.repair_steps());
            Some(
                RepairPlan {
                    steps,
                    header: main.header,
                    entries: copied_entries(main.entries.as_slice()),
                },
            )
        },
        Verdict::MainRepairable => {
            let src = match &analysis.secondary {
                Ok(t) => t,
                Err(_) => return None,
            };
            let block_size: u32 = analysis.block_size;
            let entry_blocks: u64 = src.header.entry_array_blocks(block_size)?;
            let declared: usize = src.header.entry_array_len()?;
            proof {
                src.header.array_blocks_cover(block_size);
            }
            // Pad the array out to a whole number of blocks.
            let padded_len: usize = (entry_blocks * block_size as u64) as usize;
            let entries_raw = resized_copy(src.entries_raw.as_slice(), padded_len);
            assert(entries_raw@.len() == padded_len);
            let sum: u32 = crc.crc32(&entries_raw.as_slice()[0..declared]);
            assert(entries_raw@.subrange(0, declared as int) =~= entries_raw@.take(
                declared as int,
            ));
            // Rebuild the header field by field rather than copying the
            // secondary's block, so every LBA is one we chose.
            let header = GptHeader {
                signature: src.header.signature,
                revision: src.header.revision,
                header_size: src.header.header_size,
                header_crc32: 0,
                reserved: 0,
                my_lba: 1,
                alternate_lba: analysis.last_block,
                first_usable_lba: src.header.first_usable_lba,
                last_usable_lba: src.header.last_usable_lba,
                disk_guid: src.header.disk_guid,
                partition_entry_lba: 2,
                number_of_partition_entries: src.header.number_of_partition_entries,
                size_of_partition_entry: src.header.size_of_partition_entry,
                partition_entry_array_crc32: sum,
            };
            assert(header == analysis.new_header());
            let mut steps: Vec<Step> = Vec::new();
            let mut what = "partition entry array (".to_owned();
            what.push_str(dec_text(entry_blocks).as_str());
            what.push_str(" blocks)");
            push_step(&mut steps, Step::Write { lba: 2, data: entries_raw, what });
            // The header written below asserts this array is present and
            // has this CRC. It must be on the medium first, or a power cut
            // leaves a valid header over stale bytes.
            push_step(
                &mut steps,
                Step::Flush {
                    why: "entry array must be durable before the header points at it",
                },
            );
            assert(steps_of(steps@) =~= seq![
                StepView::Write {
                    lba: 2,
                    data: analysis.new_array(),
                    what: "partition entry array ("@ + dec(entry_blocks as nat) + " blocks)"@,
                },
                StepView::Flush {
                    why: "entry array must be durable before the header points at it"@,
                },
            ]);
            if analysis.mbr.needs_repair() {
                push_step(
                    &mut steps,
                    Step::Write {
                        lba: 0,
                        data: generate(
                            Some(analysis.mbr_raw.as_slice()),
                            block_size,
                            analysis.last_block,
                        ),
                        what: "protective MBR".to_owned(),
                    },
                );
            }
            push_step(
                &mut steps,
                Step::Write {
                    lba: 1,
                    data: header.to_block(block_size, crc),
                    what: "main GPT header".to_owned(),
                },
            );
            // A source that was itself carrying a wrong alternate pointer
            // must not survive the repair as it is: the disk would come back
            // "repaired" with a secondary still pointing somewhere that is
            // not the main header. Only the pointer fields change; the array
            // it describes is untouched and its CRC still holds.
            if src.only_wrong_alternate() {
                let secondary = GptHeader {
                    my_lba: analysis.last_block,
                    alternate_lba: 1,
                    ..src.header
                };
                push_step(
                    &mut steps,
                    Step::Write {
                        lba: analysis.last_block,
                        data: secondary.to_block(block_size, crc),
                        what: "secondary GPT header (alternate pointer corrected)".to_owned(),
                    },
                );
            }
            push_step(&mut steps, Step::Flush { why: "commit main GPT header" });
            Some(
                RepairPlan {
                    steps,
                    header,
                    entries: copied_entries(src.entries.as_slice()),
                },
            )
        },
        _ => None,
    }
}

/// A step as the request it turns into, with the answer it got.
pub open spec fn carried_out(step: StepView, reply: Result<(), IoError>) -> Op {
    match step {
        StepView::Write { lba, data, what } => Op::Write { lba, data, reply },
        StepView::Flush { why } => Op::Flush { reply },
    }
}

/// The requests of the first `n` steps, all of which succeeded.
pub open spec fn completed(steps: Seq<StepView>, n: nat) -> Seq<Op> {
    Seq::new(n, |i: int| carried_out(steps[i], Ok(())))
}

/// What carrying out a plan does to the device: every step in order, or
/// every step up to the first one that failed, whose error is the result.
pub open spec fn applied(
    before: Seq<Op>,
    after: Seq<Op>,
    steps: Seq<StepView>,
    r: Result<(), IoError>,
) -> bool {
    match r {
        Ok(_) => after == before + completed(steps, steps.len()),
        Err(e) => exists|n: nat|
            n < steps.len() && after == before + #[trigger] completed(steps, n)
                + seq![carried_out(steps[n as int], Err(e))],
    }
}

/// Execute a plan. Stops at the first error, leaving the disk in whatever
/// state the completed steps produced, which is why the ordering matters.
pub fn apply<D: BlockDevice + ?Sized>(dev: &mut D, plan: &RepairPlan) -> (r: Result<(), IoError>)
    ensures
        applied(old(dev).trace(), final(dev).trace(), steps_of(plan.steps@), r),
{
    let ghost start = dev.trace();
    let ghost all = steps_of(plan.steps@);
    let mut i: usize = 0;
    assert(dev.trace() =~= start + completed(all, 0));
    while i < plan.steps.len()
        invariant
            i <= plan.steps.len(),
            all == steps_of(plan.steps@),
            start == old(dev).trace(),
            dev.trace() == start + completed(all, i as nat),
        decreases plan.steps.len() - i,
    {
        let ghost so_far = dev.trace();
        let reply = match &plan.steps[i] {
            Step::Write { lba, data, .. } => dev.write_blocks(*lba, data.as_slice()),
            Step::Flush { .. } => dev.flush(),
        };
        assert(dev.trace() =~= so_far.push(carried_out(all[i as int], reply)));
        if let Err(e) = reply {
            assert(dev.trace() =~= start + completed(all, i as nat) + seq![
                carried_out(all[i as int], Err(e)),
            ]);
            return Err(e);
        }
        assert(reply->Ok_0 == ());
        assert(dev.trace() =~= start + completed(all, (i + 1) as nat));
        i += 1;
    }
    Ok(())
}

// -------------------------------------------------------------------- laws

/// Analysing a disk never writes to it: every request it makes is a read.
pub proof fn analysis_only_reads(
    before: Seq<Op>,
    after: Seq<Op>,
    block_size: u32,
    last_block: u64,
    r: Result<Analysis, IoError>,
)
    requires
        analysis_read(before, after, block_size, last_block, r),
    ensures
        after.len() >= before.len(),
        after.take(before.len() as int) == before,
        forall|i: int| before.len() <= i < after.len() ==> #[trigger] after[i] is Read,
{
    let n = before.len() as int;
    if on_disk(block_size, last_block, 0, 1) {
        let first = before.push(after[n]);
        match r {
            Ok(a) => {
                let mid = choose|mid: Seq<Op>| #[trigger]
                    table_read(first, mid, 1, last_block, block_size, a.main) && table_read(
                        mid,
                        after,
                        last_block,
                        last_block,
                        block_size,
                        a.secondary,
                    );
                table_read_extends(first, mid, 1, last_block, block_size, a.main);
                table_read_extends(mid, after, last_block, last_block, block_size, a.secondary);
                assert forall|i: int| n <= i < after.len() implies #[trigger] after[i] is Read by {
                    if i < mid.len() {
                        assert(after.take(mid.len() as int)[i] == mid[i]);
                        if i < first.len() {
                            assert(mid.take(first.len() as int)[i] == first[i]);
                        }
                    }
                }
                assert(after.take(n) =~= after.take(mid.len() as int).take(
                    first.len() as int,
                ).take(n));
                assert(first.take(n) =~= before);
            },
            Err(_) => {
                assert(after.take(n) =~= before);
            },
        }
    } else {
        assert(after.take(n) =~= before);
    }
}

/// A plan for a disk that was read can be held in memory: whatever it is
/// built from has been held there already.
pub proof fn a_disk_that_was_read_can_be_planned(
    before: Seq<Op>,
    after: Seq<Op>,
    block_size: u32,
    last_block: u64,
    r: Result<Analysis, IoError>,
)
    requires
        analysis_read(before, after, block_size, last_block, r),
        block_size >= 512,
    ensures
        r matches Ok(a) ==> a.plannable(),
{
    if let Ok(a) = r {
        let n = before.len() as int;
        let mid = choose|mid: Seq<Op>| #[trigger]
            table_read(before.push(after[n]), mid, 1, last_block, block_size, a.main) && table_read(
                mid,
                after,
                last_block,
                last_block,
                block_size,
                a.secondary,
            );
        assert(table_read(mid, after, last_block, last_block, block_size, a.secondary));
        if a.rebuildable() {
            let h = a.secondary->Ok_0.header;
            let blocks = h.array_blocks(block_size)->0;
            assert(on_disk(block_size, last_block, h.partition_entry_lba, blocks));
        }
    }
}

/// Acting on a verdict writes exactly where there is a plan, and those are the
/// two verdicts that something is wrong that can be put right.
pub proof fn acting_means_there_is_a_plan(
    before: Seq<Op>,
    after: Seq<Op>,
    block_size: u32,
    last_block: u64,
    r: Result<Analysis, IoError>,
)
    requires
        analysis_read(before, after, block_size, last_block, r),
    ensures
        r matches Ok(a) ==> {
            &&& a.verdict.writes() == a.planned()
            &&& a.planned() == (a.verdict == Verdict::MbrOnly || a.verdict
                == Verdict::MainRepairable)
        },
{
    if let Ok(a) = r {
        if a.verdict == Verdict::MainRepairable {
            let n = before.len() as int;
            let mid = choose|mid: Seq<Op>| #[trigger]
                table_read(before.push(after[n]), mid, 1, last_block, block_size, a.main)
                    && table_read(
                    mid,
                    after,
                    last_block,
                    last_block,
                    block_size,
                    a.secondary,
                );
            let t = a.secondary->Ok_0;
            assert(table_read(mid, after, last_block, last_block, block_size, a.secondary));
            assert(assessment(t, block_size) is Ok);
            let raw = after[mid.len() as int]->Read_reply->Ok_0;
            if t.header.array_blocks(block_size) is None {
                assert(t.built_from(raw, None, last_block, last_block, block_size));
                source_is_sound(t, raw, None, last_block, last_block, block_size);
                assert(blocks_needed(t, block_size) == u64::MAX);
            }
        }
    }
}

/// A disk with a hybrid MBR is refused whatever its tables look like, and a
/// verdict that is not one to write on never yields a step to carry out.
pub proof fn refused_disks_are_left_alone(a: Analysis)
    requires
        a.decided(),
    ensures
        a.mbr == MbrStatus::Hybrid ==> a.verdict == Verdict::RefusedHybridMbr,
        !a.verdict.writes() ==> !a.regenerates_mbr() && !a.rebuildable(),
        a.regenerates_mbr() ==> a.mbr.repairable(),
{
}

/// When a main table is rebuilt, the entry array is written, and made
/// durable by a flush, before any header that points at it is written; and
/// the last step is a flush.
pub proof fn array_is_durable_before_headers(a: Analysis, j: int)
    requires
        a.rebuildable(),
        0 <= j < a.repair_steps().len(),
        a.repair_steps()[j] matches StepView::Write { lba, .. } && lba != 2,
    ensures
        a.repair_steps()[0] matches StepView::Write { lba, data, .. } && lba == 2 && data
            == a.new_array(),
        a.repair_steps()[1] is Flush,
        1 < j,
        a.repair_steps().last() is Flush,
{
}

/// A repair writes the protective MBR, the main header, the main entry array
/// and the secondary header, and nothing else.
pub proof fn repair_stays_in_its_place(a: Analysis, j: int)
    requires
        a.verdict == Verdict::MbrOnly || a.rebuildable(),
        0 <= j < a.repair_steps().len(),
    ensures
        a.repair_steps()[j] matches StepView::Write { lba, .. } ==> lba == 0 || (a.rebuildable()
            && (lba <= 2 || lba == a.last_block)),
{
}

/// The header of a table that can be repaired from is sound in every field
/// but possibly the pointer to the other header, and its checksum holds.
pub proof fn source_is_sound(
    t: TableView,
    raw: Seq<u8>,
    array: Option<Result<Seq<u8>, IoError>>,
    read_from: u64,
    last_block: u64,
    block_size: u32,
)
    requires
        t.built_from(raw, array, read_from, last_block, block_size),
        t.valid() || t.misdirected(),
    ensures
        t.header.sound_fields(read_from, last_block, block_size),
        t.header.crc_defects(raw).len() == 0,
        t.header.array_defects(
            if t.entries_raw@.len() > 0 {
                Some(t.entries_raw@)
            } else {
                None
            },
        ).len() == 0,
{
    let entries = if t.entries_raw@.len() > 0 {
        Some(t.entries_raw@)
    } else {
        None
    };
    let fields = t.header.field_defects(read_from, last_block, block_size);
    let sums = t.header.crc_defects(raw);
    let arrays = t.header.array_defects(entries);
    let all = fields + sums + arrays;
    assert(t.defects@ == all);
    assert forall|d: Defect| fields.contains(d) implies d is AlternateLbaWrongForRole by {
        let i = choose|i: int| 0 <= i < fields.len() && fields[i] == d;
        assert(all[i] == d);
    }
    t.header.fields_sound_but_for_pointer(read_from, last_block, block_size);
    reveal(crate::header::flagged);
    if sums.len() > 0 {
        assert(all[fields.len() as int] == sums[0]);
    }
    if arrays.len() > 0 {
        assert(all[(fields + sums).len() as int] == arrays[0]);
    }
}

/// The main table a repair writes is one this library finds nothing wrong
/// with, and it describes the partitions the secondary did.
///
/// `t` is the main table as it reads back: its header block and its entry
/// array are the ones the plan writes to LBA 1 and LBA 2. `raw` and `b` are
/// what the secondary was read from.
pub proof fn rebuilt_main_is_valid(a: Analysis, raw: Seq<u8>, b: Seq<u8>, t: TableView)
    requires
        a.decided(),
        a.verdict == Verdict::MainRepairable,
        a.secondary->Ok_0.built_from(
            raw,
            Some(Ok(b)),
            a.last_block,
            a.last_block,
            a.block_size,
        ),
        a.secondary->Ok_0.header.array_len() matches Some(len) ==> b.len() >= len,
        t.built_from(
            a.new_header().block_bytes(a.block_size),
            Some(Ok(a.new_array())),
            1,
            a.last_block,
            a.block_size,
        ),
    ensures
        a.rebuildable(),
        t.valid(),
        t.header == (GptHeader { header_crc32: t.header.header_crc32, ..a.new_header() }),
        t.header == (GptHeader {
            my_lba: 1,
            alternate_lba: a.last_block,
            partition_entry_lba: 2,
            header_crc32: t.header.header_crc32,
            ..a.secondary->Ok_0.header
        }),
        t.entries_raw@ == a.secondary->Ok_0.entries_raw@,
        t.entries@ == a.secondary->Ok_0.entries@,
{
    let src = a.secondary->Ok_0;
    let bs = a.block_size;
    let last = a.last_block;
    source_is_sound(src, raw, Some(Ok(b)), last, last, bs);
    assert(assessment(src, bs) is Ok);
    let h = a.new_header();
    let block = h.block_bytes(bs);
    h.written_header_reads_back(bs, t.header);
    assert(src.header.array_blocks(bs) is Some) by {
        // An unusable geometry would have been rejected as colliding.
        if src.header.array_blocks(bs) is None {
            assert(blocks_needed(src, bs) == u64::MAX);
        }
    }
    src.header.array_blocks_cover(bs);
    let len = src.header.array_len()->0 as int;
    let padded = a.new_array();
    assert(t.header.array_len() == src.header.array_len());
    assert(t.header.array_blocks(bs) == src.header.array_blocks(bs));
    assert(src.entries_raw@ == prefix(b, len));
    assert(src.entries_raw@.len() == len);
    assert(padded.take(len) =~= src.entries_raw@);
    assert(padded.len() >= len);
    assert(t.entries_raw@ =~= src.entries_raw@);
    assert(t.header.sound_fields(1, last, bs));
    t.header.fields_are_clean(1, last, bs);
    reveal(crate::header::flagged);
    assert(t.header.crc_defects(block).len() == 0);
    assert(t.entries_raw@.take(len) =~= t.entries_raw@);
    assert(t.header.array_defects(Some(t.entries_raw@)).len() == 0);
    assert(t.defects@.len() == 0);
    assert forall|i: int| 0 <= i < t.entries@.len() implies t.entries@[i] == src.entries@[i] by {
        let stride = src.header.size_of_partition_entry;
        let slot = src.entries_raw@.subrange(i * stride, (i + 1) * stride);
        assert(t.entries@[i].parsed_from(slot));
        assert(src.entries@[i].parsed_from(slot));
        t.entries@[i].parsed_from_is_unique(src.entries@[i], slot);
    }
    assert(t.entries@ =~= src.entries@);
}

/// A secondary GPT that a main one may be rebuilt from: it lists a used ESP
/// and a used first root filesystem, each by name and type, every used
/// partition lies in the usable range and apart from every other, and an entry
/// array at LBA 2 ends before that range begins.
pub open spec fn plausible_source(t: TableView, block_size: u32) -> bool {
    &&& exists|i: int|
        0 <= i < t.entries@.len() && (#[trigger] t.entries@[i]).used() && t.entries@[i].name_text()
            == "esp"@ && t.entries@[i].type_guid.0@ == Kind::EfiSystem.bytes()
    &&& exists|i: int|
        0 <= i < t.entries@.len() && (#[trigger] t.entries@[i]).used() && t.entries@[i].name_text()
            == "rootfs-A"@ && t.entries@[i].type_guid.0@ == Kind::LinuxRoot.bytes()
    &&& forall|i: int|
        0 <= i < t.entries@.len() && (#[trigger] t.entries@[i]).used() ==> {
            &&& t.header.first_usable_lba <= t.entries@[i].starting_lba
            &&& t.entries@[i].starting_lba <= t.entries@[i].ending_lba
            &&& t.entries@[i].ending_lba <= t.header.last_usable_lba
        }
    &&& forall|i: int, j: int|
        0 <= i < j < t.entries@.len() && (#[trigger] t.entries@[i]).used() && (
        #[trigger] t.entries@[j]).used() ==> t.entries@[i].ending_lba < t.entries@[j].starting_lba
            || t.entries@[j].ending_lba < t.entries@[i].starting_lba
    &&& match t.header.array_blocks(block_size) {
        Some(blocks) => 2 + blocks <= t.header.first_usable_lba,
        None => t.header.first_usable_lba == u64::MAX,
    }
}

/// A main GPT is rebuilt on exactly the disks where it is broken, no hybrid
/// MBR stands in the way, and the secondary is whole, but for a wrong pointer
/// to the main header at most, and plausible. A secondary without its ESP or
/// its root filesystem, with partitions out of range or on top of each other,
/// or whose array would run into the first partition, is never a source.
pub proof fn a_repair_needs_a_plausible_source(a: Analysis)
    requires
        a.decided(),
    ensures
        a.verdict == Verdict::MainRepairable <==> {
            &&& a.mbr != MbrStatus::Hybrid
            &&& !(a.main matches Ok(m) && m.defects@.len() == 0 && m.entries_error is None)
            &&& a.secondary matches Ok(s) && s.entries_error is None && (forall|i: int|
                0 <= i < s.defects@.len()
                    ==> #[trigger] s.defects@[i] is AlternateLbaWrongForRole) && plausible_source(
                s,
                a.block_size,
            )
        },
        a.verdict != Verdict::MainRepairable && a.verdict != Verdict::MbrOnly ==> !a.planned(),
{
    if let Ok(s) = a.secondary {
        let (first, last) = (s.header.first_usable_lba, s.header.last_usable_lba);
        a_table_without_its_esp_or_root_is_not_recognised(s.entries@);
        structure_is_clean(s.entries@, first, last);
        if assessment(s, a.block_size) is Ok {
            assert(structure_issues(s.entries@, first, last).len() == 0);
        }
        if plausible_source(s, a.block_size) {
            assert(any_used(s.entries@));
            if s.header.array_blocks(a.block_size) is Some {
                s.header.array_blocks_cover(a.block_size);
            }
        }
        if s.header.array_blocks(a.block_size) is Some {
            s.header.array_blocks_cover(a.block_size);
        }
    }
}

/// What each of the other verdicts says of a disk: it is healthy if both
/// tables are whole and the MBR protects them, only the MBR is rewritten if it
/// alone is wrong, and a disk with a hybrid MBR, or with neither table usable,
/// is left alone.
pub proof fn a_verdict_says_what_is_wrong(a: Analysis)
    requires
        a.decided(),
    ensures
        ({
            let m = a.main matches Ok(t) && t.defects@.len() == 0 && t.entries_error is None;
            let s = a.secondary matches Ok(t) && t.defects@.len() == 0 && t.entries_error is None;
            let hybrid = a.mbr == MbrStatus::Hybrid;
            &&& a.verdict == Verdict::RefusedHybridMbr <==> hybrid
            &&& a.verdict == Verdict::Healthy <==> m && s && a.mbr == MbrStatus::Protective
            &&& a.verdict == Verdict::MbrOnly <==> m && s && !hybrid && a.mbr
                != MbrStatus::Protective
            &&& a.verdict == Verdict::SecondaryDegraded <==> m && !s && !hybrid
            &&& a.verdict == Verdict::Unrecoverable ==> !m && !s && !hybrid
            &&& !hybrid && !m && !(a.secondary is Ok) ==> a.verdict == Verdict::Unrecoverable
            &&& s && !m && !hybrid ==> a.verdict == Verdict::MainRepairable || a.verdict
                == Verdict::RefusedImplausibleSecondary
        }),
{
}

/// A repair is carried out as the table will stand: the plan's table is the
/// one its writes put on the disk.
pub proof fn a_repair_plans_the_table_it_writes(a: Analysis)
    requires
        a.planned(),
    ensures
        a.rebuildable() ==> {
            let src = a.secondary->Ok_0;
            let p = a.repair_plan();
            &&& p.entries == src.entries@
            &&& p.header.my_lba == 1
            &&& p.header.alternate_lba == a.last_block
            &&& p.header.partition_entry_lba == 2
            &&& p.header.first_usable_lba == src.header.first_usable_lba
            &&& p.header.last_usable_lba == src.header.last_usable_lba
            &&& p.header.disk_guid == src.header.disk_guid
            &&& p.header.number_of_partition_entries == src.header.number_of_partition_entries
            &&& p.header.size_of_partition_entry == src.header.size_of_partition_entry
            &&& exists|k: int|
                0 <= k < p.steps.len() && (
                #[trigger] p.steps[k] matches StepView::Write { lba, data, .. } && lba == 1 && data
                    == p.header.block_bytes(a.block_size))
            &&& p.steps[0] matches StepView::Write { lba, data, .. } && lba == 2 && (
            src.entries_raw@.len() <= data.len() ==> data.take(src.entries_raw@.len() as int)
                == src.entries_raw@)
            &&& (exists|k: int|
                0 <= k < p.steps.len() && (
                #[trigger] p.steps[k] matches StepView::Write { lba, .. } && lba == 0))
                <== a.mbr != MbrStatus::Protective && a.mbr != MbrStatus::Hybrid
        },
        a.verdict == Verdict::MbrOnly ==> {
            let p = a.repair_plan();
            &&& p.entries == a.main->Ok_0.entries@
            &&& p.header == a.main->Ok_0.header
            &&& p.steps.len() == 2
            &&& p.steps[0] matches StepView::Write { lba, .. } && lba == 0
            &&& p.steps[1] is Flush
        },
{
    if a.rebuildable() {
        let p = a.repair_plan();
        let src = a.secondary->Ok_0;
        let k = if a.mbr.repairable() {
            3int
        } else {
            2
        };
        assert(p.steps[k] matches StepView::Write { lba, data, .. } && lba == 1);
        if a.mbr.repairable() {
            assert(p.steps[2] matches StepView::Write { lba, .. } && lba == 0);
        }
        if src.entries_raw@.len() <= a.new_array().len() {
            assert(a.new_array().take(src.entries_raw@.len() as int) =~= src.entries_raw@);
        }
    }
}

/// A table is valid exactly if its bytes are what the format calls for: the
/// signature, revision and sizes, the block it stands on and the block of the
/// other header, a sane usable range and entry array, and both checksums.
pub proof fn a_table_is_valid_if_its_bytes_are(
    t: TableView,
    raw: Seq<u8>,
    b: Seq<u8>,
    read_from: u64,
    last_block: u64,
    block_size: u32,
)
    requires
        t.built_from(raw, Some(Ok(b)), read_from, last_block, block_size),
        raw.len() == block_size,
        le32(raw, 80) * le32(raw, 84) <= b.len() <= usize::MAX,
        read_from == 1 || read_from == last_block,
    ensures
        t.valid() <==> {
            let size = le32(raw, 12) as int;
            let len = le32(raw, 80) * le32(raw, 84);
            &&& le64(raw, 0) == 0x5452_4150_2049_4645
            &&& le32(raw, 8) == 0x0001_0000
            &&& 92 <= size <= block_size
            &&& le32(raw, 16) == crc32_of(
                raw.take(16) + seq![0u8, 0u8, 0u8, 0u8] + raw.subrange(20, size),
            )
            &&& le32(raw, 20) == 0
            &&& le64(raw, 24) == read_from
            &&& le64(raw, 32) == (if read_from == 1 {
                last_block
            } else {
                1
            })
            &&& 1 <= last_block
            &&& 2 <= le64(raw, 40) <= le64(raw, 48) <= last_block
            &&& 1 <= le32(raw, 80) <= 8192
            &&& le32(raw, 84) >= 128
            &&& le32(raw, 84) % 8 == 0
            &&& 1 <= le64(raw, 72)
            &&& read_from == 1 ==> le64(raw, 72) == 2
            &&& le64(raw, 72) + (len + block_size - 1) / block_size as int <= last_block + 1
            &&& le64(raw, 72) + (len + block_size - 1) / block_size as int <= u64::MAX
            &&& le32(raw, 88) == crc32_of(b.take(len))
        },
        t.header.first_usable_lba == le64(raw, 40),
        t.header.last_usable_lba == le64(raw, 48),
        t.header.disk_guid.0@ == raw.subrange(56, 72),
        t.header.partition_entry_lba == le64(raw, 72),
        t.header.number_of_partition_entries == le32(raw, 80),
        t.header.size_of_partition_entry == le32(raw, 84),
{
    let h = t.header;
    let size = h.header_size as int;
    let len = h.number_of_partition_entries * h.size_of_partition_entry;
    reveal(crate::header::flagged);
    h.fields_are_clean(read_from, last_block, block_size);
    let entries = if t.entries_raw@.len() > 0 {
        Some(t.entries_raw@)
    } else {
        None
    };
    let fields = h.field_defects(read_from, last_block, block_size);
    let sums = h.crc_defects(raw);
    let arrays = h.array_defects(entries);
    assert(t.defects@ == fields + sums + arrays);
    assert(t.defects@.len() == fields.len() + sums.len() + arrays.len());
    assert(seq![0u8, 0u8, 0u8, 0u8] =~= zeros(4));
    if h.count_ok() && h.stride_ok() {
        let n = h.number_of_partition_entries as int;
        let s = h.size_of_partition_entry as int;
        assert(128 <= n * s) by (nonlinear_arith)
            requires
                n >= 1,
                s >= 128,
        ;
        if block_size > 0 {
            h.array_blocks_cover(block_size);
        }
        assert(t.entries_raw@ == prefix(b, len));
        assert(t.entries_raw@.take(len) =~= b.take(len));
    }
}

/// The entries of a table are the slots of its array, one after the other:
/// type, unique GUID, first and last block, attributes and name of each where
/// the format puts them.
pub proof fn an_entry_is_read_from_its_slot(
    t: TableView,
    raw: Seq<u8>,
    b: Seq<u8>,
    read_from: u64,
    last_block: u64,
    block_size: u32,
    i: int,
)
    requires
        t.built_from(raw, Some(Ok(b)), read_from, last_block, block_size),
        t.header.array_len() matches Some(len) && len <= b.len(),
        0 <= i < t.header.number_of_partition_entries,
    ensures
        t.entries@.len() == t.header.number_of_partition_entries,
        ({
            let at = i * t.header.size_of_partition_entry;
            let e = t.entries@[i];
            &&& at + 128 <= b.len()
            &&& e.type_guid.0@ == b.subrange(at, at + 16)
            &&& e.unique_guid.0@ == b.subrange(at + 16, at + 32)
            &&& e.starting_lba == le64(b, at + 32)
            &&& e.ending_lba == le64(b, at + 40)
            &&& e.attributes == le64(b, at + 48)
            &&& forall|k: int| 0 <= k < 36 ==> #[trigger] e.name@[k] == le16(b, at + 56 + 2 * k)
        }),
{
    let n = t.header.number_of_partition_entries as int;
    let s = t.header.size_of_partition_entry as int;
    let len = n * s;
    assert(t.entries_raw@ == prefix(b, len));
    assert(len / s == n) by (nonlinear_arith)
        requires
            len == n * s,
            s >= 128,
    ;
    assert(i * s + s == (i + 1) * s && (i + 1) * s <= len && 0 <= i * s) by (nonlinear_arith)
        requires
            0 <= i < n,
            len == n * s,
            s >= 128,
    ;
    let slot = t.entries_raw@.subrange(i * s, (i + 1) * s);
    let e = t.entries@[i];
    assert(e.parsed_from(slot));
    let at = i * s;
    assert forall|k: int| 0 <= k < s implies slot[k] == b[at + k] by {}
    assert(slot.subrange(0, 16) =~= b.subrange(at, at + 16));
    assert(slot.subrange(16, 32) =~= b.subrange(at + 16, at + 32));
    reveal(le64);
    reveal(le32);
    reveal(le16);
    assert forall|k: int| 0 <= k < 36 implies #[trigger] e.name@[k] == le16(b, at + 56 + 2 * k) by {
        assert(e.name@[k] == le16(slot, 56 + 2 * k));
    }
}

/// The table worth believing: a valid one wherever there is one, the main
/// before the secondary, and a damaged one only where there is no better.
pub proof fn a_valid_table_is_believed_first(a: Analysis)
    ensures
        sound(a.main) ==> a.best() == Some(a.main->Ok_0),
        !sound(a.main) && sound(a.secondary) ==> a.best() == Some(a.secondary->Ok_0),
        a.best() is None <==> a.main is Err && a.secondary is Err,
        a.best() matches Some(t) ==> (a.main matches Ok(m) && m == t) || (
        a.secondary matches Ok(s) && s == t),
{
}


/// The used entries of a table are all of them, each with its slot, in order.
pub proof fn every_used_entry_is_listed(
    entries: Seq<PartitionEntry>,
    n: nat,
    x: (usize, PartitionEntry),
)
    requires
        n <= entries.len() <= usize::MAX,
    ensures
        used_among(entries, n).contains(x) <==> x.0 < n && entries[x.0 as int] == x.1
            && x.1.used(),
        forall|i: int, j: int|
            0 <= i < j < used_among(entries, n).len() ==> (#[trigger] used_among(entries, n)[i]).0
                < (#[trigger] used_among(entries, n)[j]).0,
    decreases n,
{
    if n > 0 {
        every_used_entry_is_listed(entries, (n - 1) as nat, x);
        let rest = used_among(entries, (n - 1) as nat);
        let all = used_among(entries, n);
        assert forall|i: int| 0 <= i < rest.len() implies (#[trigger] rest[i]).0 < n - 1 by {
            every_used_entry_is_listed(entries, (n - 1) as nat, rest[i]);
            assert(rest.contains(rest[i]));
        }
        if rest.contains(x) {
            let i = choose|i: int| 0 <= i < rest.len() && rest[i] == x;
            assert(all[i] == x);
        }
        if entries[n - 1].used() {
            assert(all[rest.len() as int] == ((n - 1) as usize, entries[n - 1]));
            if all.contains(x) && !rest.contains(x) {
                let i = choose|i: int| 0 <= i < all.len() && all[i] == x;
                assert(i == rest.len());
            }
        }
    }
}

/// The writes of a plan are all of its writes, in order, each with where it
/// goes and what it is.
pub proof fn every_write_of_a_plan_is_listed(steps: Seq<StepView>, lba: u64, what: Seq<char>)
    ensures
        writes_among(steps).contains((lba, what)) <==> exists|i: int|
            0 <= i < steps.len() && ((#[trigger] steps[i]) matches StepView::Write {
                lba: at,
                what: name,
                ..
            } && at == lba && name == what),
    decreases steps.len(),
{
    if steps.len() > 0 {
        let front = steps.drop_last();
        every_write_of_a_plan_is_listed(front, lba, what);
        let rest = writes_among(front);
        let all = writes_among(steps);
        if rest.contains((lba, what)) {
            let i = choose|i: int| 0 <= i < rest.len() && rest[i] == (lba, what);
            assert(all[i] == (lba, what));
            let k = choose|k: int|
                0 <= k < front.len() && ((#[trigger] front[k]) matches StepView::Write {
                    lba: at,
                    what: name,
                    ..
                } && at == lba && name == what);
            assert(steps[k] == front[k]);
        }
        if exists|k: int|
            0 <= k < steps.len() && ((#[trigger] steps[k]) matches StepView::Write {
                lba: at,
                what: name,
                ..
            } && at == lba && name == what) {
            let k = choose|k: int|
                0 <= k < steps.len() && ((#[trigger] steps[k]) matches StepView::Write {
                    lba: at,
                    what: name,
                    ..
                } && at == lba && name == what);
            if k < front.len() {
                assert(front[k] == steps[k]);
            } else {
                assert(all[rest.len() as int] == (lba, what));
            }
        }
        if all.contains((lba, what)) && !rest.contains((lba, what)) {
            let i = choose|i: int| 0 <= i < all.len() && all[i] == (lba, what);
            assert(i == rest.len());
            assert(steps[steps.len() - 1] == steps.last());
        }
    }
}

} // verus!
