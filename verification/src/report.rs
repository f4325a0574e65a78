//! Rendering the operator-facing report.
//!
//! The lines are returned rather than printed: the exact text a person reads
//! before authorising a write deserves a specification, and the report can
//! then be rendered anywhere for any disk image.
//!
//! Each line carries a [`Style`] saying what it means: damage, caption, a
//! value that must be read. It is decided here, where the meaning is known.

use crate::disk::IoError;
use crate::entry::PartitionEntry;
use crate::guid::{guid_text, Guid};
use crate::header::Defect;
use crate::layout::{
    describe_type, type_label, Confidence, Recognition, RecognitionView, StructuralIssue,
    STEAMOS_COUNT,
};
use crate::mbr::MbrStatus;
use crate::repair::{
    steps_of, Analysis, Implausible, ImplausibleView, RepairPlan, Step, StepView, TableView,
    Verdict,
};
use crate::style::{
    add_line, add_lines, bad, blank_line, dim, good, key, line, no_lines, shown, styled, title, warn,
    Line, LineView, Style, in_either, in_pushed,
};
use crate::text::{
    capped_mul, capped_product, capped_succ_mul, dec, dec_text, joined, joined_text, pad_left,
    pad_left_text, pad_right, pad_right_text, succ_text,
};
use vstd::prelude::*;

verus! {

// -------------------------------------------------------------------- sizes

/// `bytes` in whole units and tenths of one, rounded down.
pub open spec fn scaled(bytes: u64, unit: int, name: Seq<char>) -> Seq<char> {
    dec((bytes as int / unit) as nat) + "."@ + dec(((bytes as int % unit) * 10 / unit) as nat)
        + " "@ + name
}

/// A size in the largest binary unit it reaches.
pub open spec fn human(bytes: u64) -> Seq<char> {
    if bytes >= 0x100_0000_0000 {
        scaled(bytes, 0x100_0000_0000, "TiB"@)
    } else if bytes >= 0x4000_0000 {
        scaled(bytes, 0x4000_0000, "GiB"@)
    } else if bytes >= 0x10_0000 {
        scaled(bytes, 0x10_0000, "MiB"@)
    } else if bytes >= 0x400 {
        scaled(bytes, 0x400, "KiB"@)
    } else {
        dec(bytes as nat) + " B"@
    }
}

fn scaled_text(bytes: u64, unit: u64, name: &str) -> (r: String)
    requires
        0 < unit <= 0x100_0000_0000,
    ensures
        r@ == scaled(bytes, unit as int, name@),
{
    let mut s = dec_text(bytes / unit);
    s.push_str(".");
    s.push_str(dec_text((bytes % unit) * 10 / unit).as_str());
    s.push_str(" ");
    s.push_str(name);
    s
}

/// Integer-only size formatting: some UEFI targets build with soft-float,
/// and formatting a float is not worth the risk in firmware.
pub fn human_size(bytes: u64) -> (r: String)
    ensures
        r@ == human(bytes),
{
    if bytes >= 0x100_0000_0000 {
        scaled_text(bytes, 0x100_0000_0000, "TiB")
    } else if bytes >= 0x4000_0000 {
        scaled_text(bytes, 0x4000_0000, "GiB")
    } else if bytes >= 0x10_0000 {
        scaled_text(bytes, 0x10_0000, "MiB")
    } else if bytes >= 0x400 {
        scaled_text(bytes, 0x400, "KiB")
    } else {
        let mut s = dec_text(bytes);
        s.push_str(" B");
        s
    }
}

// ----------------------------------------------------------------- verdicts

/// What the operator is told about a verdict.
pub open spec fn verdict_message(verdict: Verdict) -> Seq<char> {
    match verdict {
        Verdict::Healthy => "healthy, nothing to do"@,
        Verdict::MbrOnly => "only the protective MBR needs rewriting"@,
        Verdict::MainRepairable => "main GPT is repairable from the secondary GPT"@,
        Verdict::SecondaryDegraded =>
            "main GPT is fine; the SECONDARY GPT is damaged (not repaired here)"@,
        Verdict::Unrecoverable => "both tables are damaged - a rescue USB is required"@,
        Verdict::RefusedHybridMbr => "hybrid MBR present - refusing to touch this disk"@,
        Verdict::RefusedImplausibleSecondary =>
            "secondary GPT failed sanity checks - refusing to write"@,
    }
}

pub fn verdict_line(verdict: Verdict) -> (r: &'static str)
    ensures
        r@ == verdict_message(verdict),
{
    match verdict {
        Verdict::Healthy => "healthy, nothing to do",
        Verdict::MbrOnly => "only the protective MBR needs rewriting",
        Verdict::MainRepairable => "main GPT is repairable from the secondary GPT",
        Verdict::SecondaryDegraded => {
            "main GPT is fine; the SECONDARY GPT is damaged (not repaired here)"
        },
        Verdict::Unrecoverable => "both tables are damaged - a rescue USB is required",
        Verdict::RefusedHybridMbr => "hybrid MBR present - refusing to touch this disk",
        Verdict::RefusedImplausibleSecondary => {
            "secondary GPT failed sanity checks - refusing to write"
        },
    }
}

/// How serious a verdict is.
pub open spec fn severity(verdict: Verdict) -> Style {
    match verdict {
        Verdict::Healthy => Style::Good,
        Verdict::MbrOnly | Verdict::MainRepairable | Verdict::SecondaryDegraded => Style::Warn,
        Verdict::Unrecoverable
        | Verdict::RefusedHybridMbr
        | Verdict::RefusedImplausibleSecondary => Style::Bad,
    }
}

/// How serious a verdict is.
///
/// `MainRepairable` is `Warn` rather than `Bad` on purpose: the disk is
/// damaged, but this is the case the tool exists to fix and there is a
/// known-good source for the repair. Reserving `Bad` for the states with no
/// way out keeps it meaningful.
pub fn verdict_style(verdict: Verdict) -> (r: Style)
    ensures
        r == severity(verdict),
{
    match verdict {
        Verdict::Healthy => Style::Good,
        Verdict::MbrOnly | Verdict::MainRepairable | Verdict::SecondaryDegraded => Style::Warn,
        Verdict::Unrecoverable
        | Verdict::RefusedHybridMbr
        | Verdict::RefusedImplausibleSecondary => Style::Bad,
    }
}

// ------------------------------------------------------- the state of a disk

/// A label in the column the findings line up after.
pub open spec fn column(label: Seq<char>) -> Seq<char> {
    "  "@ + pad_right(label, 14) + ":"@
}

fn column_text(label: &str) -> (r: String)
    ensures
        r@ == column(label@),
{
    let mut s = "  ".to_owned();
    s.push_str(pad_right_text(label, 14).as_str());
    s.push_str(":");
    s
}

/// What is said of the block at LBA 0.
pub open spec fn mbr_message(status: MbrStatus) -> Seq<char> {
    match status {
        MbrStatus::Protective => "OK"@,
        MbrStatus::WrongSize { found, expected } => "wrong size ("@ + dec(found as nat)
            + " blocks, expected "@ + dec(expected as nat) + ")"@,
        MbrStatus::WrongStart { found } => "wrong start (LBA "@ + dec(found as nat)
            + ", expected 1)"@,
        MbrStatus::Hybrid => "HYBRID - will not touch this disk"@,
        MbrStatus::Absent => "missing or not protective"@,
    }
}

/// How serious the state of the block at LBA 0 is.
pub open spec fn mbr_severity(status: MbrStatus) -> Style {
    match status {
        MbrStatus::Protective => Style::Good,
        MbrStatus::Hybrid => Style::Bad,
        _ => Style::Warn,
    }
}

fn describe_mbr(status: MbrStatus) -> (r: (String, Style))
    ensures
        r.0@ == mbr_message(status),
        r.1 == mbr_severity(status),
{
    match status {
        MbrStatus::Protective => ("OK".to_owned(), Style::Good),
        MbrStatus::WrongSize { found, expected } => {
            let mut s = "wrong size (".to_owned();
            s.push_str(dec_text(found as u64).as_str());
            s.push_str(" blocks, expected ");
            s.push_str(dec_text(expected as u64).as_str());
            s.push_str(")");
            (s, Style::Warn)
        },
        MbrStatus::WrongStart { found } => {
            let mut s = "wrong start (LBA ".to_owned();
            s.push_str(dec_text(found as u64).as_str());
            s.push_str(", expected 1)");
            (s, Style::Warn)
        },
        MbrStatus::Hybrid => ("HYBRID - will not touch this disk".to_owned(), Style::Bad),
        MbrStatus::Absent => ("missing or not protective".to_owned(), Style::Warn),
    }
}

/// One bad line per defect.
pub open spec fn defect_lines(defects: Seq<Defect>) -> Seq<LineView> {
    Seq::new(defects.len(), |i: int| styled("      - "@ + defects[i].message(), Style::Bad))
}

/// What is said of one table.
pub open spec fn table_lines(label: Seq<char>, view: Result<TableView, IoError>) -> Seq<LineView> {
    match view {
        Err(e) => seq![styled(column(label) + " UNREADABLE ("@ + e.message() + ")"@, Style::Bad)],
        Ok(t) => if t.valid() {
            seq![styled(column(label) + " OK"@, Style::Good)]
        } else {
            let found = seq![styled(column(label) + " CORRUPT"@, Style::Bad)] + defect_lines(
                t.defects@,
            );
            match t.entries_error {
                Some(e) => found.push(
                    styled(
                        "      - entry array unreadable ("@ + e.message() + ")"@,
                        Style::Bad,
                    ),
                ),
                None => found,
            }
        },
    }
}

fn render_table_state(label: &str, view: &Result<TableView, IoError>) -> (r: Vec<Line>)
    ensures
        shown(r@) == table_lines(label@, *view),
{
    let mut out = no_lines();
    match view {
        Err(e) => {
            let mut s = column_text(label);
            s.push_str(" UNREADABLE (");
            s.push_str(e.to_text());
            s.push_str(")");
            add_line(&mut out, bad(s));
        },
        Ok(t) => {
            let mut s = column_text(label);
            if t.is_valid() {
                s.push_str(" OK");
                add_line(&mut out, good(s));
                return out;
            }
            s.push_str(" CORRUPT");
            add_line(&mut out, bad(s));
            let ghost head = shown(out@);
            let mut i: usize = 0;
            assert(t.defects@.take(0) =~= Seq::<Defect>::empty());
            assert(shown(out@) =~= head + defect_lines(t.defects@.take(0)));
            while i < t.defects.len()
                invariant
                    i <= t.defects.len(),
                    shown(out@) == head + defect_lines(t.defects@.take(i as int)),
                decreases t.defects.len() - i,
            {
                let mut s = "      - ".to_owned();
                s.push_str(t.defects[i].to_text().as_str());
                add_line(&mut out, bad(s));
                i += 1;
                assert(shown(out@) =~= head + defect_lines(t.defects@.take(i as int)));
            }
            assert(t.defects@.take(i as int) =~= t.defects@);
            if let Some(e) = t.entries_error {
                let mut s = "      - entry array unreadable (".to_owned();
                s.push_str(e.to_text());
                s.push_str(")");
                add_line(&mut out, bad(s));
            }
        },
    }
    out
}

/// What is said of how much a table looks like a SteamOS one.
pub open spec fn confidence_message(c: Confidence) -> Seq<char> {
    match c {
        Confidence::SteamOs => "looks like SteamOS"@,
        Confidence::Partial => "PARTIAL match to SteamOS"@,
        Confidence::Unrecognized => "NOT recognised as SteamOS"@,
    }
}

/// How serious that is.
pub open spec fn confidence_severity(c: Confidence) -> Style {
    match c {
        Confidence::SteamOs => Style::Good,
        Confidence::Partial => Style::Warn,
        Confidence::Unrecognized => Style::Bad,
    }
}

/// The lines about partitions that have another type than expected.
pub open spec fn mismatch_lines(v: Seq<(Seq<char>, Seq<u8>, Seq<u8>)>) -> Seq<LineView> {
    Seq::new(
        v.len(),
        |i: int|
            styled(
                "      "@ + v[i].0 + " has type "@ + guid_text(v[i].2) + ", expected "@ + guid_text(
                    v[i].1,
                ),
                Style::Warn,
            ),
    )
}

/// The lines about partitions of an unknown type.
pub open spec fn unknown_lines(v: Seq<(usize, Seq<u8>, Seq<char>)>) -> Seq<LineView> {
    Seq::new(
        v.len(),
        |i: int|
            styled(
                "      partition "@ + dec((v[i].0 + 1) as nat) + " has unknown type "@ + guid_text(
                    v[i].1,
                ) + " ("@ + v[i].2 + ")"@,
                Style::Warn,
            ),
    )
}

/// What is said of a recognition.
pub open spec fn recognition_lines(rec: RecognitionView) -> Seq<LineView> {
    let head = seq![
        styled(
            column("Layout"@) + " "@ + confidence_message(rec.confidence) + " ("@ + dec(
                rec.matched.len(),
            ) + "/"@ + dec(STEAMOS_COUNT as nat) + " expected partitions)"@,
            confidence_severity(rec.confidence),
        ),
    ];
    let with_missing = if rec.missing.len() > 0 {
        head.push(styled("      missing: "@ + joined(rec.missing, ", "@), Style::Warn))
    } else {
        head
    };
    with_missing + mismatch_lines(rec.type_mismatches) + unknown_lines(rec.unknown_types)
}

fn render_recognition(rec: &Recognition) -> (r: Vec<Line>)
    ensures
        shown(r@) == recognition_lines(rec@),
{
    let mut out = no_lines();
    let (verdict, style) = match rec.confidence {
        Confidence::SteamOs => ("looks like SteamOS", Style::Good),
        Confidence::Partial => ("PARTIAL match to SteamOS", Style::Warn),
        Confidence::Unrecognized => ("NOT recognised as SteamOS", Style::Bad),
    };
    assert(rec@.matched.len() == rec.matched@.len());
    assert(rec@.missing.len() == rec.missing@.len());
    let mut s = column_text("Layout");
    s.push_str(" ");
    s.push_str(verdict);
    s.push_str(" (");
    s.push_str(dec_text(rec.matched.len() as u64).as_str());
    s.push_str("/");
    s.push_str(dec_text(STEAMOS_COUNT as u64).as_str());
    s.push_str(" expected partitions)");
    add_line(&mut out, Line::new(s, style));
    if rec.missing.len() > 0 {
        let mut s = "      missing: ".to_owned();
        s.push_str(joined_text(rec.missing.as_slice(), ", ").as_str());
        add_line(&mut out, warn(s));
    }
    let ghost head = shown(out@);
    let ghost mistyped = rec@.type_mismatches;
    let mut i: usize = 0;
    assert(shown(out@) =~= head + mismatch_lines(mistyped.take(0)));
    while i < rec.type_mismatches.len()
        invariant
            i <= rec.type_mismatches.len(),
            mistyped == rec@.type_mismatches,
            shown(out@) == head + mismatch_lines(mistyped.take(i as int)),
        decreases rec.type_mismatches.len() - i,
    {
        let mut s = "      ".to_owned();
        s.push_str(rec.type_mismatches[i].0);
        s.push_str(" has type ");
        s.push_str(rec.type_mismatches[i].2.to_text().as_str());
        s.push_str(", expected ");
        s.push_str(rec.type_mismatches[i].1.to_text().as_str());
        add_line(&mut out, warn(s));
        i += 1;
        assert(shown(out@) =~= head + mismatch_lines(mistyped.take(i as int)));
    }
    assert(mistyped.take(i as int) =~= mistyped);
    let ghost middle = shown(out@);
    let ghost unknown = rec@.unknown_types;
    let mut j: usize = 0;
    assert(shown(out@) =~= middle + unknown_lines(unknown.take(0)));
    while j < rec.unknown_types.len()
        invariant
            j <= rec.unknown_types.len(),
            unknown == rec@.unknown_types,
            shown(out@) == middle + unknown_lines(unknown.take(j as int)),
        decreases rec.unknown_types.len() - j,
    {
        let mut s = "      partition ".to_owned();
        s.push_str(succ_text(rec.unknown_types[j].0 as u64).as_str());
        s.push_str(" has unknown type ");
        s.push_str(rec.unknown_types[j].1.to_text().as_str());
        s.push_str(" (");
        s.push_str(rec.unknown_types[j].2.as_str());
        s.push_str(")");
        add_line(&mut out, warn(s));
        j += 1;
        assert(shown(out@) =~= middle + unknown_lines(unknown.take(j as int)));
    }
    assert(unknown.take(j as int) =~= unknown);
    out
}

/// One bad line per structural issue.
pub open spec fn issue_lines(issues: Seq<StructuralIssue>) -> Seq<LineView> {
    Seq::new(issues.len(), |i: int| styled("      - "@ + issues[i].message(), Style::Bad))
}

/// What is said of a rejection.
pub open spec fn rejection_lines(why: ImplausibleView) -> Seq<LineView> {
    let head = seq![styled(column("Refused"@), Style::Bad)];
    match why {
        ImplausibleView::Structure(issues) => head + issue_lines(issues),
        ImplausibleView::Unrecognized(rec) => head.push(
            styled(
                "      - no "@ + joined(rec.missing_critical, " or "@)
                    + " in the recovered table"@,
                Style::Bad,
            ),
        ),
        ImplausibleView::EntryArrayCollides { entry_blocks, first_usable } => head.push(
            styled(
                "      - entry array of "@ + dec(entry_blocks as nat)
                    + " blocks would run past first usable LBA "@ + dec(first_usable as nat),
                Style::Bad,
            ),
        ),
    }
}

fn render_rejection(why: &Implausible) -> (r: Vec<Line>)
    ensures
        shown(r@) == rejection_lines(why@),
{
    let mut out = no_lines();
    add_line(&mut out, bad(column_text("Refused")));
    let ghost head = shown(out@);
    match why {
        Implausible::Structure(issues) => {
            let mut i: usize = 0;
            assert(shown(out@) =~= head + issue_lines(issues@.take(0)));
            while i < issues.len()
                invariant
                    i <= issues.len(),
                    shown(out@) == head + issue_lines(issues@.take(i as int)),
                decreases issues.len() - i,
            {
                let mut s = "      - ".to_owned();
                s.push_str(issues[i].to_text().as_str());
                add_line(&mut out, bad(s));
                i += 1;
                assert(shown(out@) =~= head + issue_lines(issues@.take(i as int)));
            }
            assert(issues@.take(i as int) =~= issues@);
        },
        Implausible::Unrecognized(rec) => {
            let mut s = "      - no ".to_owned();
            s.push_str(joined_text(rec.missing_critical.as_slice(), " or ").as_str());
            s.push_str(" in the recovered table");
            add_line(&mut out, bad(s));
        },
        Implausible::EntryArrayCollides { entry_blocks, first_usable } => {
            let mut s = "      - entry array of ".to_owned();
            s.push_str(dec_text(*entry_blocks).as_str());
            s.push_str(" blocks would run past first usable LBA ");
            s.push_str(dec_text(*first_usable).as_str());
            add_line(&mut out, bad(s));
        },
    }
    out
}

/// The size of a disk, or the largest number if it does not fit.
pub open spec fn disk_capacity(last_block: u64, block_size: u32) -> u64 {
    capped_product(last_block + 1, block_size as int)
}

/// The geometry of a disk and the state of the block at LBA 0.
pub open spec fn state_head(a: Analysis) -> Seq<LineView> {
    seq![
        styled(
            "  "@ + dec((a.last_block + 1) as nat) + " blocks x "@ + dec(a.block_size as nat)
                + " B = "@ + human(disk_capacity(a.last_block, a.block_size)),
            Style::Normal,
        ),
        styled(column("Protective MBR"@) + " "@ + mbr_message(a.mbr), mbr_severity(a.mbr)),
    ]
}

/// The per-disk body: geometry, health of each structure, and the verdict.
pub open spec fn analysis_lines(a: Analysis) -> Seq<LineView> {
    let tables = state_head(a) + table_lines("Main GPT"@, a.main) + table_lines(
        "Secondary GPT"@,
        a.secondary,
    );
    let recognised = match a.recognition {
        Some(rec) => tables + recognition_lines(rec@),
        None => tables,
    };
    let judged = match a.rejection {
        Some(why) => recognised + rejection_lines(why@),
        None => recognised,
    };
    judged.push(styled("  => "@ + verdict_message(a.verdict), severity(a.verdict)))
}

/// The per-disk body: geometry, health of each structure, and the verdict.
/// The caller prints the identifying "Disk N: <device path>" line itself.
pub fn render_analysis(analysis: &Analysis) -> (r: Vec<Line>)
    ensures
        shown(r@) == analysis_lines(*analysis),
{
    let mut out = no_lines();
    // Not dim: on a screen listing several drives this is how you tell
    // which one you are looking at.
    let mut s = "  ".to_owned();
    s.push_str(succ_text(analysis.last_block).as_str());
    s.push_str(" blocks x ");
    s.push_str(dec_text(analysis.block_size as u64).as_str());
    s.push_str(" B = ");
    s.push_str(
        human_size(capped_succ_mul(analysis.last_block, analysis.block_size as u64)).as_str(),
    );
    add_line(&mut out, line(s));
    let (mbr_text, mbr_style) = describe_mbr(analysis.mbr);
    let mut s = column_text("Protective MBR");
    s.push_str(" ");
    s.push_str(mbr_text.as_str());
    add_line(&mut out, Line::new(s, mbr_style));
    add_lines(&mut out, render_table_state("Main GPT", &analysis.main));
    add_lines(&mut out, render_table_state("Secondary GPT", &analysis.secondary));
    if let Some(rec) = &analysis.recognition {
        add_lines(&mut out, render_recognition(rec));
    }
    if let Some(why) = &analysis.rejection {
        add_lines(&mut out, render_rejection(why));
    }
    let mut s = "  => ".to_owned();
    s.push_str(verdict_line(analysis.verdict));
    add_line(&mut out, Line::new(s, verdict_style(analysis.verdict)));
    out
}

// ---------------------------------------------------------- partition lists

/// The size of a partition.
pub open spec fn extent_size(e: PartitionEntry, block_size: u32, otherwise: Seq<char>) -> Seq<
    char,
> {
    match e.extent() {
        Some(blocks) => human(capped_product(blocks as int, block_size as int)),
        None => otherwise,
    }
}

pub(crate) fn extent_text(e: &PartitionEntry, block_size: u32, otherwise: &str) -> (r: String)
    ensures
        r@ == extent_size(*e, block_size, otherwise@),
{
    match e.block_count() {
        Some(blocks) => human_size(capped_mul(blocks, block_size as u64)),
        None => otherwise.to_owned(),
    }
}

/// One row of a partition list.
pub open spec fn list_row(
    number: Seq<char>,
    start: Seq<char>,
    end: Seq<char>,
    size: Seq<char>,
    kind: Seq<char>,
    name: Seq<char>,
) -> Seq<char> {
    "    "@ + pad_left(number, 2, ' ') + "  "@ + pad_left(start, 12, ' ') + " "@ + pad_left(
        end,
        12,
        ' ',
    ) + " "@ + pad_left(size, 10, ' ') + "  "@ + pad_right(kind, 22) + " "@ + name
}

fn list_row_text(
    number: &str,
    start: &str,
    end: &str,
    size: &str,
    kind: &str,
    name: &str,
) -> (r: String)
    ensures
        r@ == list_row(number@, start@, end@, size@, kind@, name@),
{
    let mut s = "    ".to_owned();
    s.push_str(pad_left_text(number, 2, ' ').as_str());
    s.push_str("  ");
    s.push_str(pad_left_text(start, 12, ' ').as_str());
    s.push_str(" ");
    s.push_str(pad_left_text(end, 12, ' ').as_str());
    s.push_str(" ");
    s.push_str(pad_left_text(size, 10, ' ').as_str());
    s.push_str("  ");
    s.push_str(pad_right_text(kind, 22).as_str());
    s.push_str(" ");
    s.push_str(name);
    s
}

/// The row of entry `i`.
pub open spec fn entry_row(entries: Seq<PartitionEntry>, i: int, block_size: u32) -> LineView {
    let e = entries[i];
    styled(
        list_row(
            dec((i + 1) as nat),
            dec(e.starting_lba as nat),
            dec(e.ending_lba as nat),
            extent_size(e, block_size, "invalid"@),
            type_label(e.type_guid),
            e.name_text(),
        ),
        Style::Normal,
    )
}

/// The rows of the used entries among the first `n`.
pub open spec fn entry_rows(entries: Seq<PartitionEntry>, n: nat, block_size: u32) -> Seq<LineView>
    decreases n,
{
    if n == 0 {
        Seq::empty()
    } else {
        let rest = entry_rows(entries, (n - 1) as nat, block_size);
        if entries[n - 1].used() {
            rest.push(entry_row(entries, n - 1, block_size))
        } else {
            rest
        }
    }
}

/// A partition list under a caption.
pub open spec fn entries_lines(
    entries: Seq<PartitionEntry>,
    block_size: u32,
    disk_guid: Guid,
    caption: Seq<char>,
) -> Seq<LineView> {
    let head = seq![
        blank_line(),
        styled("  "@ + caption, Style::Title),
        styled(
            list_row("#"@, "Start LBA"@, "End LBA"@, "Size"@, "Type"@, "Name"@),
            Style::Dim,
        ),
    ];
    (head + entry_rows(entries, entries.len(), block_size)).push(
        styled("  Disk GUID: "@ + guid_text(disk_guid.0@), Style::Dim),
    )
}

/// A partition list under a caption. Shared by the read-only check, which
/// shows what is on the disk now, and the write paths, which show what
/// would be there afterwards: deliberately the same rendering, so the two
/// can be compared line for line.
pub fn render_entries(
    entries: &[PartitionEntry],
    block_size: u32,
    disk_guid: Guid,
    caption: &str,
) -> (r: Vec<Line>)
    ensures
        shown(r@) == entries_lines(entries@, block_size, disk_guid, caption@),
{
    let mut out = no_lines();
    add_line(&mut out, Line::blank());
    let mut s = "  ".to_owned();
    s.push_str(caption);
    add_line(&mut out, title(s));
    add_line(&mut out, dim(list_row_text("#", "Start LBA", "End LBA", "Size", "Type", "Name")));
    let ghost head = shown(out@);
    let mut i: usize = 0;
    assert(shown(out@) =~= head + entry_rows(entries@, 0, block_size));
    while i < entries.len()
        invariant
            i <= entries.len(),
            shown(out@) == head + entry_rows(entries@, i as nat, block_size),
        decreases entries.len() - i,
    {
        let e = entries[i];
        if e.is_used() {
            add_line(
                &mut out,
                line(
                    list_row_text(
                        succ_text(i as u64).as_str(),
                        dec_text(e.starting_lba).as_str(),
                        dec_text(e.ending_lba).as_str(),
                        extent_text(&e, block_size, "invalid").as_str(),
                        describe_type(&e.type_guid),
                        e.name_string().as_str(),
                    ),
                ),
            );
        }
        i += 1;
        assert(shown(out@) =~= head + entry_rows(entries@, i as nat, block_size));
    }
    let mut s = "  Disk GUID: ".to_owned();
    s.push_str(disk_guid.to_text().as_str());
    add_line(&mut out, dim(s));
    out
}

// -------------------------------------------------------------------- plans

/// The line for one step.
pub open spec fn step_line(step: StepView) -> LineView {
    match step {
        StepView::Write { lba, data, what } => styled(
            "    LBA "@ + pad_right(dec(lba as nat), 6) + " "@ + what + " ("@ + dec(data.len())
                + " bytes)"@,
            Style::Key,
        ),
        StepView::Flush { why } => styled("    flush     ["@ + why + "]"@, Style::Dim),
    }
}

/// Exactly what will be written, in order.
pub open spec fn plan_lines(steps: Seq<StepView>) -> Seq<LineView> {
    seq![blank_line(), styled("  Will write, in this order:"@, Style::Title)] + Seq::new(
        steps.len(),
        |i: int| step_line(steps[i]),
    )
}

/// Exactly what will be written, in order.
pub fn render_plan(plan: &RepairPlan) -> (r: Vec<Line>)
    ensures
        shown(r@) == plan_lines(steps_of(plan.steps@)),
{
    let mut out = no_lines();
    add_line(&mut out, Line::blank());
    add_line(&mut out, title("  Will write, in this order:"));
    let ghost head = shown(out@);
    let ghost steps = steps_of(plan.steps@);
    let mut i: usize = 0;
    assert(shown(out@) =~= head + Seq::new(0, |i: int| step_line(steps[i])));
    while i < plan.steps.len()
        invariant
            i <= plan.steps.len(),
            steps == steps_of(plan.steps@),
            shown(out@) == head + Seq::new(i as nat, |i: int| step_line(steps[i])),
        decreases plan.steps.len() - i,
    {
        match &plan.steps[i] {
            // The LBAs are the whole point of showing this screen, so they
            // get the style that says "read this".
            Step::Write { lba, data, what } => {
                let mut s = "    LBA ".to_owned();
                s.push_str(pad_right_text(dec_text(*lba).as_str(), 6).as_str());
                s.push_str(" ");
                s.push_str(what.as_str());
                s.push_str(" (");
                s.push_str(dec_text(data.len() as u64).as_str());
                s.push_str(" bytes)");
                add_line(&mut out, key(s));
            },
            Step::Flush { why } => {
                let mut s = "    flush     [".to_owned();
                s.push_str(why);
                s.push_str("]");
                add_line(&mut out, dim(s));
            },
        }
        i += 1;
        assert(shown(out@) =~= head + Seq::new(i as nat, |i: int| step_line(steps[i])));
    }
    out
}

/// Everything for one disk, as the operator sees it.
pub open spec fn report_lines(a: Analysis, plan: Option<RepairPlan>) -> Seq<LineView> {
    match plan {
        Some(p) => {
            let shown_table = if a.verdict == Verdict::MainRepairable {
                analysis_lines(a) + entries_lines(
                    p.entries@,
                    a.block_size,
                    p.header.disk_guid,
                    "Proposed table:"@,
                )
            } else {
                analysis_lines(a)
            };
            shown_table + plan_lines(steps_of(p.steps@))
        },
        None => analysis_lines(a),
    }
}

/// The table the operator is being asked to approve.
fn render_table(plan: &RepairPlan, block_size: u32) -> (r: Vec<Line>)
    ensures
        shown(r@) == entries_lines(
            plan.entries@,
            block_size,
            plan.header.disk_guid,
            "Proposed table:"@,
        ),
{
    render_entries(plan.entries.as_slice(), block_size, plan.header.disk_guid, "Proposed table:")
}

/// Everything for one disk, as the operator sees it.
pub fn render(analysis: &Analysis, plan: Option<&RepairPlan>) -> (r: Vec<Line>)
    ensures
        shown(r@) == report_lines(
            *analysis,
            match plan {
                Some(p) => Some(*p),
                None => None,
            },
        ),
{
    let mut out = render_analysis(analysis);
    if let Some(plan) = plan {
        if analysis.verdict == Verdict::MainRepairable {
            add_lines(&mut out, render_table(plan, analysis.block_size));
        }
        add_lines(&mut out, render_plan(plan));
    }
    out
}

/// What the operator reviews before a repair: the state of the disk, and
/// what would be written if there is anything to write.
pub open spec fn reviewed_lines(a: Analysis) -> Seq<LineView> {
    if !a.planned() {
        analysis_lines(a)
    } else if a.verdict == Verdict::MainRepairable {
        analysis_lines(a) + entries_lines(
            a.secondary->Ok_0.entries@,
            a.block_size,
            a.new_header().disk_guid,
            "Proposed table:"@,
        ) + plan_lines(a.repair_steps())
    } else {
        analysis_lines(a) + plan_lines(a.repair_steps())
    }
}

// --------------------------------------------------------------------- laws

proof fn table_state_is_shown(a: Analysis, x: LineView)
    requires
        table_lines("Main GPT"@, a.main).contains(x) || table_lines(
            "Secondary GPT"@,
            a.secondary,
        ).contains(x) || (a.rejection matches Some(why) && rejection_lines(why@).contains(x)) || (
        a.recognition matches Some(rec) && recognition_lines(rec@).contains(x)) || state_head(
            a,
        ).contains(x),
    ensures
        analysis_lines(a).contains(x),
{
    let m = table_lines("Main GPT"@, a.main);
    let s = table_lines("Secondary GPT"@, a.secondary);
    let tables = state_head(a) + m + s;
    in_either(state_head(a), m, x);
    in_either(state_head(a) + m, s, x);
    let recognised = match a.recognition {
        Some(rec) => tables + recognition_lines(rec@),
        None => tables,
    };
    if let Some(rec) = a.recognition {
        in_either(tables, recognition_lines(rec@), x);
    }
    let judged = match a.rejection {
        Some(why) => recognised + rejection_lines(why@),
        None => recognised,
    };
    if let Some(why) = a.rejection {
        in_either(recognised, rejection_lines(why@), x);
    }
    in_pushed(judged, styled("  => "@ + verdict_message(a.verdict), severity(a.verdict)), x);
}

/// A check reports every defect: each thing wrong with either table has a line
/// of its own, in red, and so has an entry array that could not be read.
pub proof fn every_defect_is_reported(a: Analysis, secondary: bool, t: TableView, i: int)
    requires
        secondary ==> a.secondary == Ok::<TableView, IoError>(t),
        !secondary ==> a.main == Ok::<TableView, IoError>(t),
    ensures
        0 <= i < t.defects@.len() ==> analysis_lines(a).contains(
            styled("      - "@ + t.defects@[i].message(), Style::Bad),
        ),
        t.entries_error matches Some(e) ==> analysis_lines(a).contains(
            styled("      - entry array unreadable ("@ + e.message() + ")"@, Style::Bad),
        ),
{
    let label = if secondary {
        "Secondary GPT"@
    } else {
        "Main GPT"@
    };
    let all = table_lines(
        label,
        if secondary {
            a.secondary
        } else {
            a.main
        },
    );
    if 0 <= i < t.defects@.len() {
        let x = styled("      - "@ + t.defects@[i].message(), Style::Bad);
        assert(defect_lines(t.defects@)[i] == x);
        assert(all[i + 1] == x);
        table_state_is_shown(a, x);
    }
    if let Some(e) = t.entries_error {
        let x = styled("      - entry array unreadable ("@ + e.message() + ")"@, Style::Bad);
        assert(all[all.len() - 1] == x);
        table_state_is_shown(a, x);
    }
}

/// A table is called OK exactly if nothing is wrong with it.
pub proof fn only_a_valid_table_is_called_ok(label: Seq<char>, view: Result<TableView, IoError>)
    ensures
        view matches Ok(t) && t.defects@.len() == 0 && t.entries_error is None ==> table_lines(
            label,
            view,
        ) == seq![styled("  "@ + pad_right(label, 14) + ":"@ + " OK"@, Style::Good)],
        !(view matches Ok(t) && t.defects@.len() == 0 && t.entries_error is None) ==> forall|
            k: int,
        | 0 <= k < table_lines(label, view).len() ==> (#[trigger] table_lines(label, view)[k]).style
            == Style::Bad,
{
}

/// The last line of a check is the verdict, good only for a healthy disk, and
/// bad for every one that cannot be helped here.
pub proof fn a_check_ends_with_the_verdict(a: Analysis)
    ensures
        analysis_lines(a).last() == styled(
            "  => "@ + (match a.verdict {
                Verdict::Healthy => "healthy, nothing to do"@,
                Verdict::MbrOnly => "only the protective MBR needs rewriting"@,
                Verdict::MainRepairable => "main GPT is repairable from the secondary GPT"@,
                Verdict::SecondaryDegraded =>
                    "main GPT is fine; the SECONDARY GPT is damaged (not repaired here)"@,
                Verdict::Unrecoverable => "both tables are damaged - a rescue USB is required"@,
                Verdict::RefusedHybridMbr => "hybrid MBR present - refusing to touch this disk"@,
                Verdict::RefusedImplausibleSecondary =>
                    "secondary GPT failed sanity checks - refusing to write"@,
            }),
            severity(a.verdict),
        ),
        severity(a.verdict) == Style::Good <==> a.verdict == Verdict::Healthy,
        severity(a.verdict) == Style::Bad <==> a.verdict == Verdict::Unrecoverable || a.verdict
            == Verdict::RefusedHybridMbr || a.verdict == Verdict::RefusedImplausibleSecondary,
{
}

/// Why a secondary was refused is said, reason by reason.
pub proof fn every_refusal_is_explained(a: Analysis, why: ImplausibleView, i: int)
    requires
        a.rejection matches Some(w) && w@ == why,
    ensures
        why matches ImplausibleView::Structure(issues) ==> (0 <= i < issues.len()
            ==> analysis_lines(a).contains(
            styled("      - "@ + issues[i].message(), Style::Bad),
        )),
        why matches ImplausibleView::Unrecognized(rec) ==> analysis_lines(a).contains(
            styled(
                "      - no "@ + joined(rec.missing_critical, " or "@)
                    + " in the recovered table"@,
                Style::Bad,
            ),
        ),
{
    let all = rejection_lines(why);
    match why {
        ImplausibleView::Structure(issues) => {
            if 0 <= i < issues.len() {
                let x = styled("      - "@ + issues[i].message(), Style::Bad);
                assert(issue_lines(issues)[i] == x);
                assert(all[i + 1] == x);
                table_state_is_shown(a, x);
            }
        },
        ImplausibleView::Unrecognized(rec) => {
            let x = styled(
                "      - no "@ + joined(rec.missing_critical, " or "@)
                    + " in the recovered table"@,
                Style::Bad,
            );
            assert(all[1] == x);
            table_state_is_shown(a, x);
        },
        _ => {},
    }
}

proof fn used_rows_are_there(entries: Seq<PartitionEntry>, n: nat, block_size: u32, i: int)
    requires
        0 <= i < n <= entries.len(),
        entries[i].used(),
    ensures
        entry_rows(entries, n, block_size).contains(entry_row(entries, i, block_size)),
    decreases n,
{
    let rest = entry_rows(entries, (n - 1) as nat, block_size);
    let all = entry_rows(entries, n, block_size);
    let x = entry_row(entries, i, block_size);
    if i == n - 1 {
        assert(all[rest.len() as int] == x);
    } else {
        used_rows_are_there(entries, (n - 1) as nat, block_size, i);
        let k = choose|k: int| 0 <= k < rest.len() && rest[k] == x;
        assert(all[k] == x);
    }
}

proof fn rows_are_used(entries: Seq<PartitionEntry>, n: nat, block_size: u32)
    requires
        n <= entries.len(),
    ensures
        entry_rows(entries, n, block_size).len() == entries.take(n as int).filter(
            |e: PartitionEntry| e.used(),
        ).len(),
    decreases n,
{
    reveal(Seq::filter);
    if n > 0 {
        rows_are_used(entries, (n - 1) as nat, block_size);
        assert(entries.take(n as int).drop_last() =~= entries.take(n - 1));
    }
}

/// A partition list has a row for every used partition and for no other: its
/// number, its first and last block, its type and its name.
pub proof fn every_partition_is_listed(
    entries: Seq<PartitionEntry>,
    block_size: u32,
    disk_guid: Guid,
    caption: Seq<char>,
    i: int,
)
    requires
        0 <= i < entries.len(),
        entries[i].used(),
    ensures
        entries_lines(entries, block_size, disk_guid, caption).contains(
            styled(
                "    "@ + pad_left(dec((i + 1) as nat), 2, ' ') + "  "@ + pad_left(
                    dec(entries[i].starting_lba as nat),
                    12,
                    ' ',
                ) + " "@ + pad_left(dec(entries[i].ending_lba as nat), 12, ' ') + " "@ + pad_left(
                    extent_size(entries[i], block_size, "invalid"@),
                    10,
                    ' ',
                ) + "  "@ + pad_right(type_label(entries[i].type_guid), 22) + " "@
                    + entries[i].name_text(),
                Style::Normal,
            ),
        ),
        entries_lines(entries, block_size, disk_guid, caption).len() == 4 + entries.filter(
            |e: PartitionEntry| e.used(),
        ).len(),
{
    let rows = entry_rows(entries, entries.len(), block_size);
    let all = entries_lines(entries, block_size, disk_guid, caption);
    let x = entry_row(entries, i, block_size);
    used_rows_are_there(entries, entries.len(), block_size, i);
    rows_are_used(entries, entries.len(), block_size);
    assert(entries.take(entries.len() as int) =~= entries);
    let k = choose|k: int| 0 <= k < rows.len() && rows[k] == x;
    assert(all[3 + k] == x);
}

/// What is about to be written is shown write by write, in order: the block
/// each starts at, what it is, and how many bytes.
pub proof fn every_write_is_shown(steps: Seq<StepView>, i: int)
    requires
        0 <= i < steps.len(),
    ensures
        plan_lines(steps).len() == steps.len() + 2,
        steps[i] matches StepView::Write { lba, data, what } ==> plan_lines(steps)[i + 2] == styled(
            "    LBA "@ + pad_right(dec(lba as nat), 6) + " "@ + what + " ("@ + dec(data.len())
                + " bytes)"@,
            Style::Key,
        ),
{
}

/// The review of a repair shows the table the repair would leave: every
/// partition of the secondary, and every write.
pub proof fn a_repair_is_reviewed_before_it_is_made(a: Analysis, i: int)
    requires
        a.rebuildable(),
        0 <= i < a.secondary->Ok_0.entries@.len(),
        a.secondary->Ok_0.entries@[i].used(),
    ensures
        reviewed_lines(a).contains(entry_row(a.secondary->Ok_0.entries@, i, a.block_size)),
        ({
            let n = a.repair_steps().len() + 2;
            &&& reviewed_lines(a).len() >= n
            &&& reviewed_lines(a).skip(reviewed_lines(a).len() - n) == plan_lines(a.repair_steps())
        }),
{
    let entries = a.secondary->Ok_0.entries@;
    let table = entries_lines(
        entries,
        a.block_size,
        a.new_header().disk_guid,
        "Proposed table:"@,
    );
    let x = entry_row(entries, i, a.block_size);
    let rows = entry_rows(entries, entries.len(), a.block_size);
    used_rows_are_there(entries, entries.len(), a.block_size, i);
    let k = choose|k: int| 0 <= k < rows.len() && rows[k] == x;
    assert(table[3 + k] == x);
    let plan = plan_lines(a.repair_steps());
    in_either(analysis_lines(a), table, x);
    in_either(analysis_lines(a) + table, plan, x);
    assert(reviewed_lines(a).skip(reviewed_lines(a).len() - plan.len()) =~= plan);
}


/// A size is shown in the largest unit it fills, in whole units and tenths,
/// rounded down.
pub proof fn a_size_is_shown_in_its_largest_unit(bytes: u64, whole: nat, tenth: nat)
    requires
        tenth < 10,
    ensures
        bytes < 1024 ==> human(bytes) == dec(bytes as nat) + " B"@,
        1 <= whole && 10 * bytes < 10 * 1024 * 1024 && 1024 * (10 * whole + tenth) <= 10 * bytes
            < 1024 * (10 * whole + tenth + 1) ==> human(bytes) == dec(whole) + "."@ + dec(tenth)
            + " KiB"@,
        bytes < 0x4000_0000 && 1 <= whole && 0x10_0000 * (10 * whole + tenth) <= 10 * bytes
            < 0x10_0000 * (10 * whole + tenth + 1) ==> human(bytes) == dec(whole) + "."@ + dec(
            tenth,
        ) + " MiB"@,
        bytes < 0x100_0000_0000 && 1 <= whole && 0x4000_0000 * (10 * whole + tenth) <= 10 * bytes
            < 0x4000_0000 * (10 * whole + tenth + 1) ==> human(bytes) == dec(whole) + "."@ + dec(
            tenth,
        ) + " GiB"@,
        1 <= whole && 0x100_0000_0000 * (10 * whole + tenth) <= 10 * bytes < 0x100_0000_0000 * (10
            * whole + tenth + 1) ==> human(bytes) == dec(whole) + "."@ + dec(tenth) + " TiB"@,
{
    reveal_strlit(" ");
    reveal_strlit("KiB");
    reveal_strlit("MiB");
    reveal_strlit("GiB");
    reveal_strlit("TiB");
    reveal_strlit(" KiB");
    reveal_strlit(" MiB");
    reveal_strlit(" GiB");
    reveal_strlit(" TiB");
    assert(" "@ + "KiB"@ =~= " KiB"@);
    assert(" "@ + "MiB"@ =~= " MiB"@);
    assert(" "@ + "GiB"@ =~= " GiB"@);
    assert(" "@ + "TiB"@ =~= " TiB"@);
    let text = dec(whole) + "."@ + dec(tenth);
    assert(text + " "@ + "KiB"@ =~= text + " KiB"@);
    assert(text + " "@ + "MiB"@ =~= text + " MiB"@);
    assert(text + " "@ + "GiB"@ =~= text + " GiB"@);
    assert(text + " "@ + "TiB"@ =~= text + " TiB"@);
    whole_and_tenth(bytes as int, 1024, whole as int, tenth as int);
    whole_and_tenth(bytes as int, 0x10_0000, whole as int, tenth as int);
    whole_and_tenth(bytes as int, 0x4000_0000, whole as int, tenth as int);
    whole_and_tenth(bytes as int, 0x100_0000_0000, whole as int, tenth as int);
}

proof fn whole_and_tenth(bytes: int, unit: int, whole: int, tenth: int)
    requires
        0 <= bytes,
        unit == 1024 || unit == 0x10_0000 || unit == 0x4000_0000 || unit == 0x100_0000_0000,
        0 <= tenth < 10,
        0 <= whole,
    ensures
        unit * (10 * whole + tenth) <= 10 * bytes < unit * (10 * whole + tenth + 1) ==> bytes / unit
            == whole && (bytes % unit) * 10 / unit == tenth,
{
}

/// A verdict is shown in green only where nothing is wrong and in red only
/// where nothing can be done.
pub proof fn a_verdict_is_coloured_by_what_can_be_done(verdict: Verdict)
    ensures
        severity(verdict) == Style::Good <==> verdict == Verdict::Healthy,
        severity(verdict) == Style::Bad <==> verdict == Verdict::Unrecoverable || verdict
            == Verdict::RefusedHybridMbr || verdict == Verdict::RefusedImplausibleSecondary,
        severity(verdict) == Style::Warn <==> verdict == Verdict::MbrOnly || verdict
            == Verdict::MainRepairable || verdict == Verdict::SecondaryDegraded,
        verdict == Verdict::Healthy ==> verdict_message(verdict) == "healthy, nothing to do"@,
        verdict == Verdict::Unrecoverable ==> verdict_message(verdict)
            == "both tables are damaged - a rescue USB is required"@,
        verdict == Verdict::RefusedHybridMbr ==> verdict_message(verdict)
            == "hybrid MBR present - refusing to touch this disk"@,
        verdict == Verdict::MainRepairable ==> verdict_message(verdict)
            == "main GPT is repairable from the secondary GPT"@,
{
}

} // verus!
