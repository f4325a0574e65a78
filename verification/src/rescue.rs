//! The small rescue tool: it goes through every eligible disk in turn and
//! offers to repair it, and never touches the one it was launched from.

use crate::crc::Crc32;
use crate::flows::{authorise, authorised, page, page_of, Next, NextView};
use crate::prevent::{
    assess, describe as describe_gap, gap_plan, gap_steps, gap_verdict, plan as plan_gap, verdict_lines,
    Verdict as GapVerdict,
};
use crate::repair::{plan, Analysis};
use crate::report::{plan_lines, render, render_plan, reviewed_lines};
use crate::style::{
    add_line, add_lines, blank_line, line, no_lines, shown, styled, Line, LineView, Style,
};
use crate::text::{dec, succ_text};
use vstd::prelude::*;

verus! {

/// What a disk is called: its place among those found, and its path.
pub open spec fn label_text(index: int, path: Seq<char>) -> Seq<char> {
    "Disk "@ + dec((index + 1) as nat) + ": "@ + path
}

/// What a disk is called.
pub fn disk_label(index: usize, path: &str) -> (r: String)
    ensures
        r@ == label_text(index as int, path@),
{
    let mut s = "Disk ".to_owned();
    s.push_str(succ_text(index as u64).as_str());
    s.push_str(": ");
    s.push_str(path);
    s
}

/// What is said where no disk is eligible.
pub open spec fn none_eligible(known: bool) -> Seq<LineView> {
    let head = seq![styled("  No eligible fixed, non-boot disks were found."@, Style::Normal)];
    if known {
        head
    } else {
        head + seq![
            blank_line(),
            styled("  The boot device could not be identified, so every disk"@, Style::Normal),
            styled("  is excluded rather than risk writing to the wrong one."@, Style::Normal),
        ]
    }
}

/// What is said where no disk is eligible. `known` is whether the boot
/// device could be identified.
pub fn no_disks_message(known: bool) -> (r: Vec<Line>)
    ensures
        shown(r@) == none_eligible(known),
{
    let mut out = no_lines();
    add_line(&mut out, line("  No eligible fixed, non-boot disks were found."));
    if !known {
        add_line(&mut out, Line::blank());
        add_line(&mut out, line("  The boot device could not be identified, so every disk"));
        add_line(&mut out, line("  is excluded rather than risk writing to the wrong one."));
    }
    assert(shown(out@) =~= none_eligible(known));
    out
}

/// A page about a disk names it first.
pub open spec fn about(label: Seq<char>) -> Seq<LineView> {
    seq![styled(label, Style::Normal), blank_line()]
}

fn about_disk(label: &str) -> (r: Vec<Line>)
    ensures
        shown(r@) == about(label@),
{
    let mut out = no_lines();
    add_line(&mut out, line(label));
    add_line(&mut out, Line::blank());
    assert(shown(out@) =~= about(label@));
    out
}

/// What a repair is about to do.
pub open spec fn repair_warning(label: Seq<char>) -> Seq<LineView> {
    seq![
        styled("  "@ + label, Style::Normal),
        blank_line(),
        styled("  This REWRITES the partition table on this disk."@, Style::Normal),
        styled("  The proposed table came from the backup GPT and was"@, Style::Normal),
        styled("  shown on the previous screen."@, Style::Normal),
    ]
}

fn warn_repair(label: &str) -> (r: Vec<Line>)
    ensures
        shown(r@) == repair_warning(label@),
{
    let mut out = no_lines();
    let mut s = "  ".to_owned();
    s.push_str(label);
    add_line(&mut out, line(s));
    add_line(&mut out, Line::blank());
    add_line(&mut out, line("  This REWRITES the partition table on this disk."));
    add_line(&mut out, line("  The proposed table came from the backup GPT and was"));
    add_line(&mut out, line("  shown on the previous screen."));
    assert(shown(out@) =~= repair_warning(label@));
    out
}

/// What repairing this disk does after these answers.
pub open spec fn repair_next(label: Seq<char>, analysis: Option<Analysis>, answers: Seq<bool>) ->
    NextView {
    match analysis {
        None => NextView::Tell {
            title: "Repair"@,
            lines: seq![
                styled(label, Style::Normal),
                styled("  could not be read"@, Style::Normal),
            ],
        },
        Some(a) => if answers.len() == 0 {
            page_of("Repair primary GPT"@, about(label) + reviewed_lines(a))
        } else if !answers[0] || !a.planned() {
            NextView::Done
        } else {
            authorise(answers, 1, repair_warning(label), "Repair"@, a.repair_plan())
        },
    }
}

/// Offer to repair one of the disks. The page is skipped to the next disk by
/// B.
pub fn run_repair(label: &str, analysis: Option<&Analysis>, crc: &impl Crc32, answers: &[bool]) -> (r:
    Next)
    requires
        analysis matches Some(a) ==> a.plannable(),
    ensures
        r@ == repair_next(
            label@,
            match analysis {
                Some(a) => Some(*a),
                None => None,
            },
            answers@,
        ),
{
    let a = match analysis {
        Some(a) => a,
        None => {
            let mut lines = no_lines();
            add_line(&mut lines, line(label));
            add_line(&mut lines, line("  could not be read"));
            assert(shown(lines@) =~= seq![
                styled(label@, Style::Normal),
                styled("  could not be read"@, Style::Normal),
            ]);
            return Next::Tell { title: "Repair".to_owned(), lines };
        },
    };
    let repair = plan(a, crc);
    if answers.len() == 0 {
        let mut lines = about_disk(label);
        let report = render(a, repair.as_ref());
        assert(shown(report@) =~= reviewed_lines(*a));
        add_lines(&mut lines, report);
        return page("Repair primary GPT", lines);
    }
    if !answers[0] {
        return Next::Done;
    }
    match repair {
        None => Next::Done,
        Some(p) => authorised(answers, 1, warn_repair(label), "Repair", p),
    }
}

/// What closing the gap is about to do.
pub open spec fn prevent_warning(label: Seq<char>) -> Seq<LineView> {
    seq![
        styled("  "@ + label, Style::Normal),
        blank_line(),
        styled("  This modifies a HEALTHY partition table on a theory"@, Style::Normal),
        styled("  about what corrupts it. No partition moves, and it is"@, Style::Normal),
        styled("  reversible, but it is not a repair."@, Style::Normal),
    ]
}

fn warn_prevent(label: &str) -> (r: Vec<Line>)
    ensures
        shown(r@) == prevent_warning(label@),
{
    let mut out = no_lines();
    let mut s = "  ".to_owned();
    s.push_str(label);
    add_line(&mut out, line(s));
    add_line(&mut out, Line::blank());
    add_line(&mut out, line("  This modifies a HEALTHY partition table on a theory"));
    add_line(&mut out, line("  about what corrupts it. No partition moves, and it is"));
    add_line(&mut out, line("  reversible, but it is not a repair."));
    assert(shown(out@) =~= prevent_warning(label@));
    out
}

/// What closing the gap on this disk does after these answers.
pub open spec fn prevent_next(label: Seq<char>, analysis: Option<Analysis>, answers: Seq<bool>) ->
    NextView {
    match analysis {
        None => NextView::Done,
        Some(a) => if answers.len() == 0 {
            page_of("Prevent recurrence"@, about(label) + verdict_lines(gap_verdict(a)))
        } else if !answers[0] {
            NextView::Done
        } else {
            match gap_verdict(a) {
                GapVerdict::Applicable { proposed, .. } => if answers.len() == 1 {
                    page_of(
                        "Prevent recurrence: what will be written"@,
                        about(label) + plan_lines(gap_steps(a, proposed)),
                    )
                } else if !answers[1] {
                    NextView::Done
                } else {
                    authorise(
                        answers,
                        2,
                        prevent_warning(label),
                        "Prevent"@,
                        gap_plan(a, proposed),
                    )
                },
                _ => NextView::Done,
            }
        },
    }
}

/// Offer to close the gap on one of the disks. One that could not be read is
/// passed over.
pub fn run_prevent(
    label: &str,
    analysis: Option<&Analysis>,
    crc: &impl Crc32,
    answers: &[bool],
) -> (r: Next)
    ensures
        r@ == prevent_next(
            label@,
            match analysis {
                Some(a) => Some(*a),
                None => None,
            },
            answers@,
        ),
{
    let a = match analysis {
        Some(a) => a,
        None => return Next::Done,
    };
    let verdict = assess(a);
    if answers.len() == 0 {
        let mut lines = about_disk(label);
        add_lines(&mut lines, describe_gap(verdict));
        return page("Prevent recurrence", lines);
    }
    if !answers[0] || !verdict.will_write() {
        return Next::Done;
    }
    let gap = match plan_gap(a, crc) {
        Some(p) => p,
        None => return Next::Done,
    };
    if answers.len() == 1 {
        let mut lines = about_disk(label);
        add_lines(&mut lines, render_plan(&gap));
        return page("Prevent recurrence: what will be written", lines);
    }
    if !answers[1] {
        return Next::Done;
    }
    authorised(answers, 2, warn_prevent(label), "Prevent", gap)
}

/// What is said of a write.
pub open spec fn outcome(title: Seq<char>, repairing: bool, result: Result<(), String>) -> NextView {
    match result {
        Ok(_) => NextView::Tell {
            title,
            lines: if repairing {
                seq![
                    styled("  Written and flushed."@, Style::Normal),
                    blank_line(),
                    styled("  Reboot when you are done."@, Style::Normal),
                ]
            } else {
                seq![styled("  Written and flushed."@, Style::Normal)]
            },
        },
        Err(e) => NextView::Tell {
            title: title + " FAILED"@,
            lines: seq![
                styled("  "@ + e@, Style::Normal),
                blank_line(),
                if repairing {
                    styled("  Do NOT reboot into the OS; use a rescue USB."@, Style::Normal)
                } else {
                    styled("  Check the disk with a rescue USB before rebooting."@, Style::Normal)
                },
            ],
        },
    }
}

/// What came of a write, for the operator.
pub fn report_outcome(title: &str, repairing: bool, result: &Result<(), String>) -> (r: Next)
    ensures
        r@ == outcome(title@, repairing, *result),
{
    let mut lines = no_lines();
    match result {
        Ok(_) => {
            add_line(&mut lines, line("  Written and flushed."));
            if repairing {
                add_line(&mut lines, Line::blank());
                add_line(&mut lines, line("  Reboot when you are done."));
                assert(shown(lines@) =~= seq![
                    styled("  Written and flushed."@, Style::Normal),
                    blank_line(),
                    styled("  Reboot when you are done."@, Style::Normal),
                ]);
            } else {
                assert(shown(lines@) =~= seq![styled("  Written and flushed."@, Style::Normal)]);
            }
            Next::Tell { title: title.to_owned(), lines }
        },
        Err(e) => {
            let mut s = "  ".to_owned();
            s.push_str(e.as_str());
            add_line(&mut lines, line(s));
            add_line(&mut lines, Line::blank());
            let advice = if repairing {
                "  Do NOT reboot into the OS; use a rescue USB."
            } else {
                "  Check the disk with a rescue USB before rebooting."
            };
            add_line(&mut lines, line(advice));
            let mut failed = title.to_owned();
            failed.push_str(" FAILED");
            assert(shown(lines@) =~= seq![
                styled("  "@ + e@, Style::Normal),
                blank_line(),
                styled(advice@, Style::Normal),
            ]);
            Next::Tell { title: failed, lines }
        },
    }
}

/// What stands above the menu.
pub open spec fn intro_lines(version: Seq<char>, booted_from: Option<Seq<char>>) -> Seq<LineView> {
    seq![styled("  version "@ + version, Style::Normal)] + (match booted_from {
        Some(path) => seq![
            styled("  booted from "@ + path, Style::Normal),
            styled("  that device and the disk carrying it are excluded"@, Style::Normal),
        ],
        None => seq![
            styled("  BOOT DEVICE UNKNOWN - every disk is excluded"@, Style::Normal),
            styled("  nothing can be written in this state"@, Style::Normal),
        ],
    })
}

/// What stands above the menu.
pub fn intro(version: &str, booted_from: Option<&str>) -> (r: Vec<Line>)
    ensures
        shown(r@) == intro_lines(
            version@,
            match booted_from {
                Some(path) => Some(path@),
                None => None,
            },
        ),
{
    let mut out = no_lines();
    let mut s = "  version ".to_owned();
    s.push_str(version);
    add_line(&mut out, line(s));
    match booted_from {
        Some(path) => {
            let mut s = "  booted from ".to_owned();
            s.push_str(path);
            add_line(&mut out, line(s));
            add_line(&mut out, line("  that device and the disk carrying it are excluded"));
        },
        None => {
            add_line(&mut out, line("  BOOT DEVICE UNKNOWN - every disk is excluded"));
            add_line(&mut out, line("  nothing can be written in this state"));
        },
    }
    assert(shown(out@) =~= intro_lines(
        version@,
        match booted_from {
            Some(path) => Some(path@),
            None => None,
        },
    ));
    out
}

/// Nothing is written to a disk unless the operator went on from every page
/// about it and then entered the confirmation sequence.
pub proof fn no_write_without_authority(
    label: Seq<char>,
    analysis: Option<Analysis>,
    answers: Seq<bool>,
)
    ensures
        repair_next(label, analysis, answers) is Write ==> answers.len() >= 2 && answers[0]
            && answers[1],
        prevent_next(label, analysis, answers) is Write ==> answers.len() >= 3 && answers[0]
            && answers[1] && answers[2],
{
}


/// Going on from every page and entering the sequence carries out the plan
/// that was shown, and backing out of any page carries out nothing.
pub proof fn what_was_shown_is_carried_out(label: Seq<char>, a: Analysis, answers: Seq<bool>)
    ensures
        repair_next(label, Some(a), seq![]) is Page,
        prevent_next(label, Some(a), seq![]) is Page,
        answers.len() == 2 && answers[0] && answers[1] && a.planned() ==> (repair_next(
            label,
            Some(a),
            answers,
        ) matches NextView::Write { plan, .. } && plan == a.repair_plan()),
        !a.planned() ==> !(repair_next(label, Some(a), answers) is Write),
        answers.len() == 3 && answers[0] && answers[1] && answers[2] ==> (gap_verdict(
            a,
        ) matches GapVerdict::Applicable { proposed, .. } ==> (prevent_next(
            label,
            Some(a),
            answers,
        ) matches NextView::Write { plan, .. } && plan == gap_plan(a, proposed))),
        !(gap_verdict(a) is Applicable) ==> !(prevent_next(label, Some(a), answers) is Write),
        answers.len() > 0 && !answers[0] ==> repair_next(label, Some(a), answers) is Done
            && prevent_next(label, Some(a), answers) is Done,
        answers.len() > 1 && !answers[1] ==> !(repair_next(label, Some(a), answers) is Write)
            && prevent_next(label, Some(a), answers) is Done,
        !(repair_next(label, None, answers) is Write),
        !(prevent_next(label, None, answers) is Write),
{
}

} // verus!
