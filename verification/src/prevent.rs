//! Preventing the recurrence, rather than repairing after the fact.
//!
//! The corruption observed on real hardware set `PartitionEntryLBA` to
//! 2016, which is `FirstUsableLBA - 32` on that disk, 32 being the size of
//! the entry array. In other words the writer placed the array immediately
//! below the first usable block instead of at LBA 2, where the main copy
//! belongs.
//!
//! On a conventionally formatted disk `FirstUsableLBA` is 34, and that same
//! arithmetic gives `34 - 32 = 2`, which is correct. It only goes wrong
//! where a gap exists between the end of the entry array and the first
//! usable block, as it does on a table written by util-linux fdisk.
//!
//! So: lowering `FirstUsableLBA` to sit immediately after the entry array
//! should make the faulty arithmetic produce the right answer. No partition
//! moves and no data is touched; only two header fields change.
//!
//! **This is a hypothesis that fits the arithmetic exactly, not a diagnosis
//! of the writer.** It is offered as a separate, separately-confirmed
//! operation for that reason: a repair restores a table that is known-good
//! because the secondary GPT already holds it, whereas this modifies a
//! healthy table on a theory. Callers must present it as such.

use crate::crc::Crc32;
use crate::disk::IoError;
use crate::entry::{copied_entries, PartitionEntry};
use crate::header::{flagged, GptHeader};
use crate::mbr::MbrStatus;
use crate::repair::{
    push_step, sound, source_is_sound, steps_of, Analysis, PlanView, RepairPlan, Step, StepView, TableView,
};
use crate::style::{
    add_line, blank_line, dim, good, key, line, no_lines, shown, styled, warn, Line, LineView,
    Style,
};
use crate::text::{dec, dec_text, succ_text};
use vstd::prelude::*;

verus! {

#[derive(Clone, Copy, PartialEq, Eq, Structural, Debug)]
pub enum Blocker {
    /// The disk carries a hybrid MBR.
    ///
    /// The same refusal a repair makes, for the same reason: some legacy
    /// OS is relying on that view of the disk. It has to be repeated here
    /// because this operation reaches the headers by its own route: nothing
    /// about a hybrid MBR makes the two GPTs *invalid*, so the checks below
    /// would happily pass a disk the tool has already said it will not
    /// touch.
    HybridMbr,
    /// One of the two tables is not currently valid. Repair first.
    TableNotHealthy,
    /// The main entry array is not at LBA 2, so the disk has a problem
    /// this operation is not the answer to.
    MainEntryLbaNotTwo { found: u64 },
    /// The declared entry geometry is unusable.
    GeometryUnknown,
    /// The two GPTs disagree about FirstUsableLBA already.
    HeadersDisagree { main: u64, secondary: u64 },
    /// A partition starts below where FirstUsableLBA would move to, so
    /// lowering it would describe a disk whose partitions precede the
    /// usable area.
    PartitionBelowProposed { index: usize, start: u64, proposed: u64 },
}

impl Blocker {
    /// What the operator is told. Partitions are counted from one.
    pub open spec fn message(self) -> Seq<char> {
        match self {
            Blocker::HybridMbr =>
                "this disk carries a hybrid MBR, which this tool never modifies"@,
            Blocker::TableNotHealthy => "the GPT is not currently healthy; repair it first"@,
            Blocker::MainEntryLbaNotTwo { found } => "main entry array is at LBA "@ + dec(
                found as nat,
            ) + ", not 2"@,
            Blocker::GeometryUnknown => "the entry array geometry is unusable"@,
            Blocker::HeadersDisagree { main, secondary } => "main GPT says FirstUsableLBA "@ + dec(
                main as nat,
            ) + ", secondary says "@ + dec(secondary as nat),
            Blocker::PartitionBelowProposed { index, start, proposed } => "partition "@ + dec(
                (index + 1) as nat,
            ) + " starts at LBA "@ + dec(start as nat) + ", below the proposed first usable block "@
                + dec(proposed as nat),
        }
    }

    /// What the operator is told.
    pub fn to_text(&self) -> (r: String)
        ensures
            r@ == self.message(),
    {
        match *self {
            Blocker::HybridMbr => {
                "this disk carries a hybrid MBR, which this tool never modifies".to_owned()
            },
            Blocker::TableNotHealthy => {
                "the GPT is not currently healthy; repair it first".to_owned()
            },
            Blocker::MainEntryLbaNotTwo { found } => {
                let mut s = "main entry array is at LBA ".to_owned();
                s.push_str(dec_text(found).as_str());
                s.push_str(", not 2");
                s
            },
            Blocker::GeometryUnknown => "the entry array geometry is unusable".to_owned(),
            Blocker::HeadersDisagree { main, secondary } => {
                let mut s = "main GPT says FirstUsableLBA ".to_owned();
                s.push_str(dec_text(main).as_str());
                s.push_str(", secondary says ");
                s.push_str(dec_text(secondary).as_str());
                s
            },
            Blocker::PartitionBelowProposed { index, start, proposed } => {
                let mut s = "partition ".to_owned();
                s.push_str(succ_text(index as u64).as_str());
                s.push_str(" starts at LBA ");
                s.push_str(dec_text(start).as_str());
                s.push_str(", below the proposed first usable block ");
                s.push_str(dec_text(proposed).as_str());
                s
            },
        }
    }
}

#[derive(Clone, Copy, PartialEq, Eq, Structural, Debug)]
#[allow(inconsistent_fields)]
pub enum Verdict {
    /// FirstUsableLBA can be moved down from `current` to `proposed`.
    Applicable { current: u64, proposed: u64 },
    /// Already immediately after the entry array; nothing to do.
    AlreadyMinimal { current: u64 },
    Refused(Blocker),
}

impl Verdict {
    pub fn will_write(&self) -> (r: bool)
        ensures
            r == self is Applicable,
    {
        match self {
            Verdict::Applicable { .. } => true,
            _ => false,
        }
    }
}

/// The first used partition from `i` on that starts below `proposed`.
pub open spec fn first_below(entries: Seq<PartitionEntry>, i: int, proposed: u64) -> Option<int>
    decreases entries.len() - i,
{
    if i < 0 || i >= entries.len() {
        None
    } else if entries[i].used() && entries[i].starting_lba < proposed {
        Some(i)
    } else {
        first_below(entries, i + 1, proposed)
    }
}

/// Whether the gap can be closed on this disk.
///
/// The entry array occupies LBA 2 up to its length, so the first block that
/// can legitimately be used is the one after it.
pub open spec fn gap_verdict(a: Analysis) -> Verdict {
    if a.mbr == MbrStatus::Hybrid {
        Verdict::Refused(Blocker::HybridMbr)
    } else if !sound(a.main) || !sound(a.secondary) {
        Verdict::Refused(Blocker::TableNotHealthy)
    } else {
        let main = a.main->Ok_0;
        let secondary = a.secondary->Ok_0;
        let current = main.header.first_usable_lba;
        if main.header.partition_entry_lba != 2 {
            Verdict::Refused(
                Blocker::MainEntryLbaNotTwo { found: main.header.partition_entry_lba },
            )
        } else {
            match main.header.array_blocks(a.block_size) {
                None => Verdict::Refused(Blocker::GeometryUnknown),
                Some(blocks) => {
                    let proposed = (2 + blocks) as u64;
                    if current != secondary.header.first_usable_lba {
                        Verdict::Refused(
                            Blocker::HeadersDisagree {
                                main: current,
                                secondary: secondary.header.first_usable_lba,
                            },
                        )
                    } else if current <= proposed {
                        Verdict::AlreadyMinimal { current }
                    } else {
                        match first_below(main.entries@, 0, proposed) {
                            Some(i) => Verdict::Refused(
                                Blocker::PartitionBelowProposed {
                                    index: i as usize,
                                    start: main.entries@[i].starting_lba,
                                    proposed,
                                },
                            ),
                            None => Verdict::Applicable { current, proposed },
                        }
                    }
                },
            }
        }
    }
}

fn find_below(entries: &[PartitionEntry], proposed: u64) -> (r: Option<usize>)
    ensures
        match r {
            Some(i) => i < entries@.len() && first_below(entries@, 0, proposed) == Some(i as int),
            None => first_below(entries@, 0, proposed) is None,
        },
{
    let mut i: usize = 0;
    while i < entries.len()
        invariant
            i <= entries.len(),
            first_below(entries@, 0, proposed) == first_below(entries@, i as int, proposed),
        decreases entries.len() - i,
    {
        if entries[i].is_used() && entries[i].starting_lba < proposed {
            return Some(i);
        }
        i += 1;
    }
    None
}

/// Decide whether the gap can be closed on this disk.
pub fn assess(analysis: &Analysis) -> (r: Verdict)
    ensures
        r == gap_verdict(*analysis),
{
    // First, and whatever a repair would make of the disk: one can be
    // perfectly healthy to a repair and still be a disk nothing here may
    // write to.
    if analysis.mbr == MbrStatus::Hybrid {
        return Verdict::Refused(Blocker::HybridMbr);
    }
    let main = match &analysis.main {
        Ok(t) => t,
        Err(_) => return Verdict::Refused(Blocker::TableNotHealthy),
    };
    let secondary = match &analysis.secondary {
        Ok(t) => t,
        Err(_) => return Verdict::Refused(Blocker::TableNotHealthy),
    };
    if !main.is_valid() || !secondary.is_valid() {
        return Verdict::Refused(Blocker::TableNotHealthy);
    }
    if main.header.partition_entry_lba != 2 {
        return Verdict::Refused(
            Blocker::MainEntryLbaNotTwo { found: main.header.partition_entry_lba },
        );
    }
    let blocks: u64 = match main.header.entry_array_blocks(analysis.block_size) {
        Some(blocks) => blocks,
        None => return Verdict::Refused(Blocker::GeometryUnknown),
    };
    proof {
        main.header.array_blocks_cover(analysis.block_size);
    }
    let proposed: u64 = 2 + blocks;
    let current: u64 = main.header.first_usable_lba;
    if main.header.first_usable_lba != secondary.header.first_usable_lba {
        return Verdict::Refused(
            Blocker::HeadersDisagree {
                main: main.header.first_usable_lba,
                secondary: secondary.header.first_usable_lba,
            },
        );
    }
    if current <= proposed {
        return Verdict::AlreadyMinimal { current };
    }
    if let Some(i) = find_below(main.entries.as_slice(), proposed) {
        return Verdict::Refused(
            Blocker::PartitionBelowProposed {
                index: i,
                start: main.entries[i].starting_lba,
                proposed,
            },
        );
    }
    Verdict::Applicable { current, proposed }
}

/// A header with its first usable block moved.
pub open spec fn lowered(h: GptHeader, proposed: u64) -> GptHeader {
    GptHeader { first_usable_lba: proposed, ..h }
}

/// Closing the gap, and the table as it will stand afterwards.
pub open spec fn gap_plan(a: Analysis, proposed: u64) -> PlanView {
    PlanView {
        steps: gap_steps(a, proposed),
        header: lowered(a.main->Ok_0.header, proposed),
        entries: a.main->Ok_0.entries@,
    }
}

/// The ordered writes: the two header blocks, each made durable.
pub open spec fn gap_steps(a: Analysis, proposed: u64) -> Seq<StepView> {
    seq![
        StepView::Write {
            lba: 1,
            data: lowered(a.main->Ok_0.header, proposed).block_bytes(a.block_size),
            what: "main GPT header (FirstUsableLBA lowered)"@,
        },
        StepView::Flush { why: "commit main GPT header"@ },
        StepView::Write {
            lba: a.last_block,
            data: lowered(a.secondary->Ok_0.header, proposed).block_bytes(a.block_size),
            what: "secondary GPT header (FirstUsableLBA lowered)"@,
        },
        StepView::Flush { why: "commit secondary GPT header"@ },
    ]
}

/// Rewrite both headers with the lowered `FirstUsableLBA`.
///
/// Only the two header blocks change; both entry arrays are already correct
/// and are left alone. The main GPT goes first because it is what firmware
/// and the kernel actually read: if power is cut between the two writes,
/// the authoritative copy is the updated one, and re-running the operation
/// simply finishes the job.
pub fn plan(analysis: &Analysis, crc: &impl Crc32) -> (r: Option<RepairPlan>)
    ensures
        r is Some == gap_verdict(*analysis) is Applicable,
        r matches Some(p) ==> gap_verdict(*analysis) matches Verdict::Applicable { proposed, .. }
            && steps_of(p.steps@) == gap_steps(*analysis, proposed) && p.header == lowered(
            analysis.main->Ok_0.header,
            proposed,
        ) && p.entries@ == analysis.main->Ok_0.entries@,
{
    let proposed: u64 = match assess(analysis) {
        Verdict::Applicable { proposed, .. } => proposed,
        _ => return None,
    };
    let main = match &analysis.main {
        Ok(t) => t,
        Err(_) => return None,
    };
    let secondary = match &analysis.secondary {
        Ok(t) => t,
        Err(_) => return None,
    };
    let new_main = GptHeader { first_usable_lba: proposed, ..main.header };
    let new_secondary = GptHeader { first_usable_lba: proposed, ..secondary.header };
    let mut steps: Vec<Step> = Vec::new();
    assert(steps_of(steps@) =~= Seq::<StepView>::empty());
    push_step(
        &mut steps,
        Step::Write {
            lba: 1,
            data: new_main.to_block(analysis.block_size, crc),
            what: "main GPT header (FirstUsableLBA lowered)".to_owned(),
        },
    );
    push_step(&mut steps, Step::Flush { why: "commit main GPT header" });
    push_step(
        &mut steps,
        Step::Write {
            lba: analysis.last_block,
            data: new_secondary.to_block(analysis.block_size, crc),
            what: "secondary GPT header (FirstUsableLBA lowered)".to_owned(),
        },
    );
    push_step(&mut steps, Step::Flush { why: "commit secondary GPT header" });
    Some(
        RepairPlan { steps, header: new_main, entries: copied_entries(main.entries.as_slice()) },
    )
}

/// What the operator is told of a verdict.
pub open spec fn verdict_lines(verdict: Verdict) -> Seq<LineView> {
    match verdict {
        Verdict::Applicable { current, proposed } => seq![
            styled(
                "  FirstUsableLBA would move from "@ + dec(current as nat) + " to "@ + dec(
                    proposed as nat,
                ) + "."@,
                Style::Key,
            ),
            styled("  No partition moves and no filesystem is touched;"@, Style::Normal),
            styled("  only the two GPT header blocks are rewritten."@, Style::Normal),
            blank_line(),
            styled("  WHY: the corruption seen on this hardware set the main"@, Style::Dim),
            styled("  GPT's entry array to FirstUsableLBA minus its own length,"@, Style::Dim),
            styled("  which is correct only when no gap exists. Closing the gap"@, Style::Dim),
            styled("  should make that arithmetic produce the right answer."@, Style::Dim),
            blank_line(),
            styled("  This is a THEORY that fits the observed numbers exactly,"@, Style::Warn),
            styled("  not a diagnosis. It is reversible: set the value back."@, Style::Warn),
        ],
        Verdict::AlreadyMinimal { current } => seq![
            styled(
                "  FirstUsableLBA is already "@ + dec(current as nat)
                    + ", immediately after the"@,
                Style::Good,
            ),
            styled("  entry array. There is no gap to close."@, Style::Good),
        ],
        Verdict::Refused(b) => seq![styled("  Not applicable: "@ + b.message(), Style::Warn)],
    }
}

/// Lines describing the proposal, for the operator.
pub fn describe(verdict: Verdict) -> (r: Vec<Line>)
    ensures
        shown(r@) == verdict_lines(verdict),
{
    let mut out = no_lines();
    match verdict {
        Verdict::Applicable { current, proposed } => {
            let mut s = "  FirstUsableLBA would move from ".to_owned();
            s.push_str(dec_text(current).as_str());
            s.push_str(" to ");
            s.push_str(dec_text(proposed).as_str());
            s.push_str(".");
            add_line(&mut out, key(s));
            add_line(&mut out, line("  No partition moves and no filesystem is touched;"));
            add_line(&mut out, line("  only the two GPT header blocks are rewritten."));
            add_line(&mut out, Line::blank());
            add_line(&mut out, dim("  WHY: the corruption seen on this hardware set the main"));
            add_line(&mut out, dim("  GPT's entry array to FirstUsableLBA minus its own length,"));
            add_line(&mut out, dim("  which is correct only when no gap exists. Closing the gap"));
            add_line(&mut out, dim("  should make that arithmetic produce the right answer."));
            add_line(&mut out, Line::blank());
            add_line(&mut out, warn("  This is a THEORY that fits the observed numbers exactly,"));
            add_line(&mut out, warn("  not a diagnosis. It is reversible: set the value back."));
        },
        Verdict::AlreadyMinimal { current } => {
            let mut s = "  FirstUsableLBA is already ".to_owned();
            s.push_str(dec_text(current).as_str());
            s.push_str(", immediately after the");
            add_line(&mut out, good(s));
            add_line(&mut out, good("  entry array. There is no gap to close."));
        },
        Verdict::Refused(b) => {
            let mut s = "  Not applicable: ".to_owned();
            s.push_str(b.to_text().as_str());
            add_line(&mut out, warn(s));
        },
    }
    out
}

// -------------------------------------------------------------------- laws

/// A sound table whose first usable block is moved down is still sound, and
/// still lists the same partitions.
///
/// `before` was read from `raw` and `array`; `after` is the same table with
/// its header block replaced by the rewritten one.
proof fn lowered_table_is_valid(
    before: TableView,
    raw: Seq<u8>,
    array: Option<Result<Seq<u8>, IoError>>,
    read_from: u64,
    last_block: u64,
    block_size: u32,
    proposed: u64,
    after: TableView,
)
    requires
        before.built_from(raw, array, read_from, last_block, block_size),
        before.valid(),
        2 <= proposed <= before.header.first_usable_lba,
        after.built_from(
            lowered(before.header, proposed).block_bytes(block_size),
            array,
            read_from,
            last_block,
            block_size,
        ),
    ensures
        after.valid(),
        after.header == (GptHeader {
            first_usable_lba: proposed,
            header_crc32: after.header.header_crc32,
            ..before.header
        }),
        after.header.array_blocks(block_size) == before.header.array_blocks(block_size),
        after.entries@ == before.entries@,
{
    source_is_sound(before, raw, array, read_from, last_block, block_size);
    before.header.fields_are_clean(read_from, last_block, block_size);
    let fields = before.header.field_defects(read_from, last_block, block_size);
    assert(fields.len() <= before.defects@.len());
    let h = lowered(before.header, proposed);
    let block = h.block_bytes(block_size);
    h.written_header_reads_back(block_size, after.header);
    after.header.fields_are_clean(read_from, last_block, block_size);
    assert(after.entries_raw@ == before.entries_raw@);
    reveal(flagged);
    assert(after.header.crc_defects(block).len() == 0);
    assert(after.header.disk_guid == before.header.disk_guid);
    assert(after.header.array_defects(
        if after.entries_raw@.len() > 0 {
            Some(after.entries_raw@)
        } else {
            None
        },
    ) == before.header.array_defects(
        if before.entries_raw@.len() > 0 {
            Some(before.entries_raw@)
        } else {
            None
        },
    ));
    assert forall|i: int| 0 <= i < after.entries@.len() implies after.entries@[i]
        == before.entries@[i] by {
        let stride = before.header.size_of_partition_entry;
        let slot = before.entries_raw@.subrange(i * stride, (i + 1) * stride);
        assert(after.entries@[i].parsed_from(slot));
        assert(before.entries@[i].parsed_from(slot));
        after.entries@[i].parsed_from_is_unique(before.entries@[i], slot);
    }
    assert(after.entries@ =~= before.entries@);
}

/// Closing the gap leaves both tables sound with the same partitions, and
/// there is then no gap left to close: doing it again does nothing.
///
/// `a` is the disk before, read from the given blocks and arrays; `b` is the
/// disk afterwards, with the two rewritten header blocks in place and
/// everything else as it was.
pub proof fn closing_the_gap_is_safe_and_final(
    a: Analysis,
    main_raw: Seq<u8>,
    main_array: Option<Result<Seq<u8>, IoError>>,
    secondary_raw: Seq<u8>,
    secondary_array: Option<Result<Seq<u8>, IoError>>,
    current: u64,
    proposed: u64,
    b: Analysis,
)
    requires
        gap_verdict(a) == (Verdict::Applicable { current, proposed }),
        a.main->Ok_0.built_from(main_raw, main_array, 1, a.last_block, a.block_size),
        a.secondary->Ok_0.built_from(
            secondary_raw,
            secondary_array,
            a.last_block,
            a.last_block,
            a.block_size,
        ),
        b.block_size == a.block_size,
        b.last_block == a.last_block,
        b.mbr == a.mbr,
        b.main is Ok,
        b.main->Ok_0.built_from(
            lowered(a.main->Ok_0.header, proposed).block_bytes(a.block_size),
            main_array,
            1,
            a.last_block,
            a.block_size,
        ),
        b.secondary is Ok,
        b.secondary->Ok_0.built_from(
            lowered(a.secondary->Ok_0.header, proposed).block_bytes(a.block_size),
            secondary_array,
            a.last_block,
            a.last_block,
            a.block_size,
        ),
    ensures
        sound(b.main),
        sound(b.secondary),
        b.main->Ok_0.entries@ == a.main->Ok_0.entries@,
        b.secondary->Ok_0.entries@ == a.secondary->Ok_0.entries@,
        gap_verdict(b) == (Verdict::AlreadyMinimal { current: proposed }),
        b.main->Ok_0.header == (GptHeader {
            first_usable_lba: proposed,
            header_crc32: b.main->Ok_0.header.header_crc32,
            ..a.main->Ok_0.header
        }),
        b.secondary->Ok_0.header == (GptHeader {
            first_usable_lba: proposed,
            header_crc32: b.secondary->Ok_0.header.header_crc32,
            ..a.secondary->Ok_0.header
        }),
{
    let main = a.main->Ok_0;
    main.header.array_blocks_cover(a.block_size);
    lowered_table_is_valid(
        main,
        main_raw,
        main_array,
        1,
        a.last_block,
        a.block_size,
        proposed,
        b.main->Ok_0,
    );
    lowered_table_is_valid(
        a.secondary->Ok_0,
        secondary_raw,
        secondary_array,
        a.last_block,
        a.last_block,
        a.block_size,
        proposed,
        b.secondary->Ok_0,
    );
}

/// Closing the gap writes two header blocks, each followed by a flush, and
/// nothing else; a disk with a hybrid MBR is refused though both tables are
/// healthy.
pub proof fn gap_touches_only_headers(a: Analysis, proposed: u64, j: int)
    requires
        0 <= j < gap_steps(a, proposed).len(),
    ensures
        gap_steps(a, proposed)[j] matches StepView::Write { lba, .. } ==> (lba == 1 || lba
            == a.last_block) && gap_steps(a, proposed)[j + 1] is Flush,
        a.mbr == MbrStatus::Hybrid ==> gap_verdict(a) == Verdict::Refused(Blocker::HybridMbr),
{
}

proof fn none_below(entries: Seq<PartitionEntry>, i: int, proposed: u64)
    requires
        0 <= i,
    ensures
        first_below(entries, i, proposed) is None <==> (forall|j: int|
            i <= j < entries.len() && (#[trigger] entries[j]).used() ==> proposed
                <= entries[j].starting_lba),
    decreases entries.len() - i,
{
    if i < entries.len() {
        none_below(entries, i + 1, proposed);
    }
}

/// The gap is closed on exactly the disks where that is safe and there is
/// one: no hybrid MBR, both tables sound and of one mind, the main entry
/// array where it belongs, free blocks between the array and the first usable
/// block, and no partition among them. The block proposed is the one right
/// behind the array.
pub proof fn the_gap_is_closed_where_it_is_safe(a: Analysis, current: u64, proposed: u64)
    ensures
        gap_verdict(a) == (Verdict::Applicable { current, proposed }) <==> {
            &&& a.mbr != MbrStatus::Hybrid
            &&& a.main matches Ok(m) && m.defects@.len() == 0 && m.entries_error is None
            &&& a.secondary matches Ok(s) && s.defects@.len() == 0 && s.entries_error is None
            &&& a.main->Ok_0.header.partition_entry_lba == 2
            &&& a.main->Ok_0.header.array_blocks(a.block_size) is Some
            &&& proposed == 2 + a.main->Ok_0.header.array_blocks(a.block_size)->0
            &&& current == a.main->Ok_0.header.first_usable_lba
            &&& current == a.secondary->Ok_0.header.first_usable_lba
            &&& current > proposed
            &&& forall|j: int|
                0 <= j < a.main->Ok_0.entries@.len() && (
                #[trigger] a.main->Ok_0.entries@[j]).used() ==> proposed
                    <= a.main->Ok_0.entries@[j].starting_lba
        },
{
    if a.main is Ok {
        let h = a.main->Ok_0.header;
        if h.array_blocks(a.block_size) is Some {
            h.array_blocks_cover(a.block_size);
            let p = (2 + h.array_blocks(a.block_size)->0) as u64;
            none_below(a.main->Ok_0.entries@, 0, p);
        }
    }
}

/// Closing the gap rewrites the two header blocks and moves one field of
/// each: read back, each header is the one before it but for its first usable
/// block and the checksum that covers it. No partition is left outside the
/// usable range that was inside it.
///
/// The blocks and arrays are what the two tables were read from; `m` and `s`
/// are the headers the written blocks hold.
pub proof fn closing_the_gap_moves_one_field(
    a: Analysis,
    main_raw: Seq<u8>,
    main_array: Option<Result<Seq<u8>, IoError>>,
    secondary_raw: Seq<u8>,
    secondary_array: Option<Result<Seq<u8>, IoError>>,
    current: u64,
    proposed: u64,
    m: GptHeader,
    s: GptHeader,
)
    requires
        gap_verdict(a) == (Verdict::Applicable { current, proposed }),
        a.main->Ok_0.built_from(main_raw, main_array, 1, a.last_block, a.block_size),
        a.secondary->Ok_0.built_from(
            secondary_raw,
            secondary_array,
            a.last_block,
            a.last_block,
            a.block_size,
        ),
        gap_plan(a, proposed).steps[0] matches StepView::Write { data, .. } && m.parsed_from(data),
        gap_plan(a, proposed).steps[2] matches StepView::Write { data, .. } && s.parsed_from(data),
    ensures
        gap_plan(a, proposed).steps.len() == 4,
        gap_plan(a, proposed).steps[0]->Write_lba == 1,
        gap_plan(a, proposed).steps[1] is Flush,
        gap_plan(a, proposed).steps[2]->Write_lba == a.last_block,
        gap_plan(a, proposed).steps[3] is Flush,
        m == (GptHeader {
            first_usable_lba: proposed,
            header_crc32: m.header_crc32,
            ..a.main->Ok_0.header
        }),
        s == (GptHeader {
            first_usable_lba: proposed,
            header_crc32: s.header_crc32,
            ..a.secondary->Ok_0.header
        }),
        m.expected_crc(gap_plan(a, proposed).steps[0]->Write_data) == Some(m.header_crc32),
        s.expected_crc(gap_plan(a, proposed).steps[2]->Write_data) == Some(s.header_crc32),
        gap_plan(a, proposed).header.first_usable_lba == proposed,
        gap_plan(a, proposed).header.last_usable_lba == a.main->Ok_0.header.last_usable_lba,
        gap_plan(a, proposed).header.disk_guid == a.main->Ok_0.header.disk_guid,
        gap_plan(a, proposed).entries == a.main->Ok_0.entries@,
        forall|j: int|
            0 <= j < a.main->Ok_0.entries@.len() && (#[trigger] a.main->Ok_0.entries@[j]).used()
                && a.main->Ok_0.entries@[j].ending_lba <= a.main->Ok_0.header.last_usable_lba ==> {
                &&& m.first_usable_lba <= a.main->Ok_0.entries@[j].starting_lba
                &&& a.main->Ok_0.entries@[j].ending_lba <= m.last_usable_lba
            },
{
    let (main, secondary) = (a.main->Ok_0, a.secondary->Ok_0);
    the_gap_is_closed_where_it_is_safe(a, current, proposed);
    source_is_sound(main, main_raw, main_array, 1, a.last_block, a.block_size);
    source_is_sound(
        secondary,
        secondary_raw,
        secondary_array,
        a.last_block,
        a.last_block,
        a.block_size,
    );
    lowered(main.header, proposed).written_header_reads_back(a.block_size, m);
    lowered(secondary.header, proposed).written_header_reads_back(a.block_size, s);
}

} // verus!
