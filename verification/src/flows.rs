//! What each operation on a partition table does next.
//!
//! An operation is a conversation: it shows a screen, is given the answer,
//! and decides what comes after. Each function here is handed every answer
//! so far and says what to do next, so the order of the screens, and what
//! stands between the operator and a write, is decided here and nowhere
//! else. The application only draws, asks, and carries out.

use crate::backup::{
    archive_body, archive_lines, capture, capture_read, compare, comparison,
    describe as describe_archive, encode, inspect, inspection_lines, restore_plan, restore_steps,
    restored_plan, sealed, unfit, Archive, Health, Match, Timestamp,
};
use crate::crc::Crc32;
use crate::disk::{BlockDevice, IoError};
use crate::disks::{show_error, show_note, Disk};
use crate::meta::pairs_of;
use crate::prevent::{
    assess, describe as describe_gap, gap_plan, gap_steps, gap_verdict, plan as plan_gap, verdict_lines,
    Verdict as GapVerdict,
};
use crate::repair::{plan, steps_of, Analysis, PlanView, RepairPlan, Verdict};
use crate::report::{
    analysis_lines, entries_lines, plan_lines, render, render_analysis, render_entries,
    render_plan, reviewed_lines,
};
use crate::saved::{all_have_blocks, opening, restore_opening, Opening, OpeningView, Saved};
use crate::style::{
    add_line, add_lines, bad, blank_line, dim, good, key, line, no_lines, shown, styled, warn,
    wrapped_lines, Line, LineView, Style,
};
use crate::text::{dec, dec_text};
use crate::ui::{wrapped, writable_width};
use crate::volumes::{
    attach_hint, copied_lines, hint_lines, on_disk_only, stays_inside, volume_lines, volume_rows, Volume,
    Written, DIR,
};
use vstd::prelude::*;

verus! {

/// What an operation does next.
pub enum Next {
    /// Show a page; the answer is whether the operator went on.
    Page { title: String, lines: Vec<Line> },
    /// Ask for the confirmation sequence; the answer is whether it was
    /// entered.
    Gate { title: String, warning: Vec<Line> },
    /// Show a message, and the operation is over.
    Tell { title: String, lines: Vec<Line> },
    /// Carry out the plan, report what came of it under this title, and the
    /// operation is over.
    Write { title: String, plan: RepairPlan },
    /// The operation is over.
    Done,
}

/// [`Next`] as a value.
pub enum NextView {
    Page { title: Seq<char>, lines: Seq<LineView> },
    Gate { title: Seq<char>, warning: Seq<LineView> },
    Tell { title: Seq<char>, lines: Seq<LineView> },
    Write { title: Seq<char>, plan: PlanView },
    Done,
}

impl View for Next {
    type V = NextView;

    open spec fn view(&self) -> NextView {
        match self {
            Next::Page { title, lines } => NextView::Page {
                title: title@,
                lines: shown(lines@),
            },
            Next::Gate { title, warning } => NextView::Gate {
                title: title@,
                warning: shown(warning@),
            },
            Next::Tell { title, lines } => NextView::Tell {
                title: title@,
                lines: shown(lines@),
            },
            Next::Write { title, plan } => NextView::Write { title: title@, plan: plan@ },
            Next::Done => NextView::Done,
        }
    }
}

/// A page.
pub open spec fn page_of(title: Seq<char>, lines: Seq<LineView>) -> NextView {
    NextView::Page { title, lines }
}

/// A failure, in one line.
pub open spec fn error_of(title: Seq<char>, message: Seq<char>) -> NextView {
    NextView::Tell { title, lines: seq![styled("  "@ + message, Style::Bad)] }
}

/// A refusal, or a choice the operator made, in one line.
pub open spec fn note_of(title: Seq<char>, message: Seq<char>) -> NextView {
    NextView::Tell { title, lines: seq![styled("  "@ + message, Style::Warn)] }
}

pub(crate) fn page(title: &str, lines: Vec<Line>) -> (r: Next)
    ensures
        r@ == page_of(title@, shown(lines@)),
{
    Next::Page { title: title.to_owned(), lines }
}

fn fail(title: &str, message: &str) -> (r: Next)
    ensures
        r@ == error_of(title@, message@),
{
    Next::Tell { title: title.to_owned(), lines: show_error(message) }
}

/// The last steps of every operation that writes: the confirmation sequence
/// first, and only if it was entered the write.
pub open spec fn authorise(
    answers: Seq<bool>,
    asked: int,
    warning: Seq<LineView>,
    title: Seq<char>,
    plan: PlanView,
) -> NextView {
    if answers.len() <= asked {
        NextView::Gate { title: "Authorise write"@, warning }
    } else if !answers[asked] {
        note_of(title, "Cancelled. Nothing was written."@)
    } else {
        NextView::Write { title, plan }
    }
}

/// The last steps of every operation that writes. `asked` is how many
/// answers the screens before it took.
pub(crate) fn authorised(
    answers: &[bool],
    asked: usize,
    warning: Vec<Line>,
    title: &str,
    plan: RepairPlan,
) -> (r: Next)
    ensures
        r@ == authorise(answers@, asked as int, shown(warning@), title@, plan@),
{
    if answers.len() <= asked {
        return Next::Gate { title: "Authorise write".to_owned(), warning };
    }
    if !answers[asked] {
        return Next::Tell {
            title: title.to_owned(),
            lines: show_note("Cancelled. Nothing was written."),
        };
    }
    Next::Write { title: title.to_owned(), plan }
}

// -------------------------------------------------------------------- check

/// Everything the check of a disk shows.
pub open spec fn check_lines(disk: Disk, a: Analysis, cols: usize) -> Seq<LineView> {
    let head = wrapped_lines(
        "  "@ + disk.path@,
        writable_width(cols as int) as nat,
        Style::Dim,
        "    "@,
    ).push(blank_line()) + analysis_lines(a);
    let table = match a.best() {
        Some(t) => head + entries_lines(
            t.entries@,
            a.block_size,
            t.header.disk_guid,
            if t.valid() {
                "Current table:"@
            } else {
                "Table as far as it could be read:"@
            },
        ),
        None => head,
    };
    table.push(blank_line()).push(
        styled("  Nothing was written. This check never modifies a disk."@, Style::Good),
    )
}

/// Read-only: say what is wrong, write nothing, offer nothing.
pub fn run_check(disk: &Disk, cols: usize) -> (r: Next)
    ensures
        r@ == (match disk.analysis {
            Err(e) => error_of("Check GPT"@, e@),
            Ok(a) => page_of("Check GPT (read only)"@, check_lines(*disk, a, cols)),
        }),
{
    let a = match &disk.analysis {
        Ok(a) => a,
        Err(e) => return fail("Check GPT", e.as_str()),
    };
    let mut path = "  ".to_owned();
    path.push_str(disk.path.as_str());
    let mut lines = wrapped(path.as_str(), Style::Dim, "    ", cols);
    add_line(&mut lines, Line::blank());
    add_lines(&mut lines, render_analysis(a));
    if let Some(t) = a.best_view() {
        let caption = if t.is_valid() {
            "Current table:"
        } else {
            "Table as far as it could be read:"
        };
        add_lines(
            &mut lines,
            render_entries(t.entries.as_slice(), a.block_size, t.header.disk_guid, caption),
        );
    }
    add_line(&mut lines, Line::blank());
    add_line(&mut lines, good("  Nothing was written. This check never modifies a disk."));
    page("Check GPT (read only)", lines)
}

// ------------------------------------------------------------------- repair

/// What a repair is about to do, in the operator's words: "rewrites the
/// partition table" is alarming and, when only the protective MBR is wrong,
/// untrue.
pub open spec fn repair_warning(verdict: Verdict) -> Seq<LineView> {
    if verdict == Verdict::MbrOnly {
        seq![
            styled("  This rewrites the protective MBR on this disk."@, Style::Warn),
            styled("  Both GPTs are intact and are left alone."@, Style::Normal),
        ]
    } else {
        seq![
            styled("  This REWRITES the partition table on this disk."@, Style::Bad),
            styled("  The proposed table came from the secondary GPT and was"@, Style::Normal),
            styled("  shown on the previous screen."@, Style::Normal),
        ]
    }
}

pub(crate) fn repair_warning_lines(verdict: Verdict) -> (r: Vec<Line>)
    ensures
        shown(r@) == repair_warning(verdict),
{
    let mut out = no_lines();
    if verdict == Verdict::MbrOnly {
        add_line(&mut out, warn("  This rewrites the protective MBR on this disk."));
        add_line(&mut out, line("  Both GPTs are intact and are left alone."));
    } else {
        add_line(&mut out, bad("  This REWRITES the partition table on this disk."));
        add_line(&mut out, line("  The proposed table came from the secondary GPT and was"));
        add_line(&mut out, line("  shown on the previous screen."));
    }
    out
}

/// What a repair of this disk does after these answers.
pub open spec fn repair_next(disk: Disk, answers: Seq<bool>) -> NextView {
    match disk.analysis {
        Err(e) => error_of("Repair"@, e@),
        Ok(a) => if answers.len() == 0 {
            page_of("Repair main GPT"@, reviewed_lines(a))
        } else if !answers[0] || !a.planned() {
            NextView::Done
        } else {
            authorise(answers, 1, repair_warning(a.verdict), "Repair"@, a.repair_plan())
        },
    }
}

/// Rebuild a corrupt main GPT from the secondary GPT.
pub fn run_repair(disk: &Disk, crc: &impl Crc32, answers: &[bool]) -> (r: Next)
    requires
        disk.analysis matches Ok(a) ==> a.plannable(),
    ensures
        r@ == repair_next(*disk, answers@),
{
    let a = match &disk.analysis {
        Ok(a) => a,
        Err(e) => return fail("Repair", e.as_str()),
    };
    let repair = plan(a, crc);
    if answers.len() == 0 {
        let lines = render(a, repair.as_ref());
        assert(shown(lines@) =~= reviewed_lines(*a));
        return page("Repair main GPT", lines);
    }
    if !answers[0] {
        return Next::Done;
    }
    match repair {
        None => Next::Done,
        Some(p) => authorised(answers, 1, repair_warning_lines(a.verdict), "Repair", p),
    }
}

// ------------------------------------------------------------------ prevent

/// What closing the gap is about to do.
pub open spec fn prevent_warning() -> Seq<LineView> {
    seq![
        styled("  This modifies a HEALTHY partition table on a theory"@, Style::Warn),
        styled("  about what corrupts it. No partition moves, and it is"@, Style::Warn),
        styled("  reversible, but it is not a repair."@, Style::Warn),
    ]
}

pub(crate) fn prevent_warning_lines() -> (r: Vec<Line>)
    ensures
        shown(r@) == prevent_warning(),
{
    let mut out = no_lines();
    add_line(&mut out, warn("  This modifies a HEALTHY partition table on a theory"));
    add_line(&mut out, warn("  about what corrupts it. No partition moves, and it is"));
    add_line(&mut out, warn("  reversible, but it is not a repair."));
    out
}

/// What closing the gap on this disk does after these answers.
pub open spec fn prevent_next(disk: Disk, answers: Seq<bool>) -> NextView {
    match disk.analysis {
        Err(e) => error_of("Prevent"@, e@),
        Ok(a) => if answers.len() == 0 {
            page_of("Prevent recurrence"@, verdict_lines(gap_verdict(a)))
        } else if !answers[0] {
            NextView::Done
        } else {
            match gap_verdict(a) {
                GapVerdict::Applicable { proposed, .. } => if answers.len() == 1 {
                    page_of(
                        "Prevent recurrence: what will be written"@,
                        plan_lines(gap_steps(a, proposed)),
                    )
                } else if !answers[1] {
                    NextView::Done
                } else {
                    authorise(answers, 2, prevent_warning(), "Prevent"@, gap_plan(a, proposed))
                },
                _ => NextView::Done,
            }
        },
    }
}

/// Close the gap that the corrupting writer's arithmetic depends on.
pub fn run_prevent(disk: &Disk, crc: &impl Crc32, answers: &[bool]) -> (r: Next)
    ensures
        r@ == prevent_next(*disk, answers@),
{
    let a = match &disk.analysis {
        Ok(a) => a,
        Err(e) => return fail("Prevent", e.as_str()),
    };
    let verdict = assess(a);
    if answers.len() == 0 {
        return page("Prevent recurrence", describe_gap(verdict));
    }
    if !answers[0] || !verdict.will_write() {
        return Next::Done;
    }
    let gap = match plan_gap(a, crc) {
        Some(p) => p,
        None => return Next::Done,
    };
    if answers.len() == 1 {
        return page("Prevent recurrence: what will be written", render_plan(&gap));
    }
    if !answers[1] {
        return Next::Done;
    }
    authorised(answers, 2, prevent_warning_lines(), "Prevent", gap)
}

// ------------------------------------------------------------------ restore

/// What is reviewed before a snapshot is put back onto a disk.
pub open spec fn restore_lines(archive: Archive, disk: Disk, a: Analysis) -> Seq<LineView> {
    let c = comparison(archive@, a);
    let seen = inspection_lines(archive@, Some(("Disk "@ + dec(disk.number as nat), c)));
    let noted = if c.conclusion() == Match::SameGeometry {
        seen + seq![
            blank_line(),
            styled("  NOTE: nothing in this snapshot identifies it as this"@, Style::Warn),
            styled("  disk's own. The geometry fits, so it can be written,"@, Style::Warn),
            styled("  but check it is really the disk you mean."@, Style::Warn),
        ]
    } else {
        seen
    };
    noted + plan_lines(restore_steps(archive@))
}

/// What putting a snapshot back is about to do.
pub open spec fn restore_warning(archive: Archive) -> Seq<LineView> {
    let head = seq![
        styled("  This REPLACES both partition tables with the saved copy."@, Style::Bad),
    ];
    if archive.health.sound() {
        head
    } else {
        head + seq![
            blank_line(),
            styled("  WARNING: this snapshot was taken from a DAMAGED table."@, Style::Bad),
        ]
    }
}

fn restore_warning_lines(archive: &Archive) -> (r: Vec<Line>)
    ensures
        shown(r@) == restore_warning(*archive),
{
    let mut out = no_lines();
    add_line(&mut out, bad("  This REPLACES both partition tables with the saved copy."));
    if !archive.health.tables_were_sound() {
        add_line(&mut out, Line::blank());
        add_line(&mut out, bad("  WARNING: this snapshot was taken from a DAMAGED table."));
    }
    assert(shown(out@) =~= restore_warning(*archive));
    out
}

/// What putting this snapshot back onto this disk does after these answers.
pub open spec fn restore_next(archive: Archive, disk: Disk, answers: Seq<bool>) -> NextView {
    match disk.analysis {
        Err(e) => error_of("Restore GPT"@, e@),
        Ok(a) => match unfit(archive@, a.block_size, a.last_block) {
            Some(m) => error_of(
                "Restore GPT refused"@,
                "this snapshot does not fit this disk: "@ + m.message(),
            ),
            None => if answers.len() == 0 {
                page_of("Restore GPT"@, restore_lines(archive, disk, a))
            } else if !answers[0] {
                NextView::Done
            } else {
                authorise(
                    answers,
                    1,
                    restore_warning(archive),
                    "Restore GPT"@,
                    restored_plan(archive@),
                )
            },
        },
    }
}

fn restore_review(archive: &Archive, disk: &Disk, a: &Analysis, plan: &RepairPlan) -> (r: Vec<Line>)
    requires
        steps_of(plan.steps@) == restore_steps(archive@),
    ensures
        shown(r@) == restore_lines(*archive, *disk, *a),
{
    let c = compare(archive, a);
    let mut name = "Disk ".to_owned();
    name.push_str(dec_text(disk.number as u64).as_str());
    let mut lines = inspect(archive, Some((name.as_str(), &c)));
    let ghost seen = shown(lines@);
    if c.verdict() == Match::SameGeometry {
        add_line(&mut lines, Line::blank());
        add_line(&mut lines, warn("  NOTE: nothing in this snapshot identifies it as this"));
        add_line(&mut lines, warn("  disk's own. The geometry fits, so it can be written,"));
        add_line(&mut lines, warn("  but check it is really the disk you mean."));
        assert(shown(lines@) =~= seen + seq![
            blank_line(),
            styled("  NOTE: nothing in this snapshot identifies it as this"@, Style::Warn),
            styled("  disk's own. The geometry fits, so it can be written,"@, Style::Warn),
            styled("  but check it is really the disk you mean."@, Style::Warn),
        ]);
    }
    add_lines(&mut lines, render_plan(plan));
    lines
}

/// Put a saved snapshot back onto a disk.
pub fn run_restore(archive: &Archive, disk: &Disk, answers: &[bool]) -> (r: Next)
    requires
        archive.block_size > 0,
    ensures
        r@ == restore_next(*archive, *disk, answers@),
{
    let a = match &disk.analysis {
        Ok(a) => a,
        Err(e) => return fail("Restore GPT", e.as_str()),
    };
    let restore = match restore_plan(archive, a) {
        Ok(p) => p,
        Err(m) => {
            let mut s = "this snapshot does not fit this disk: ".to_owned();
            s.push_str(m.to_text().as_str());
            return fail("Restore GPT refused", s.as_str());
        },
    };
    if answers.len() == 0 {
        return page("Restore GPT", restore_review(archive, disk, a, &restore));
    }
    if !answers[0] {
        return Next::Done;
    }
    authorised(answers, 1, restore_warning_lines(archive), "Restore GPT", restore)
}

/// What has happened so far about putting a snapshot back.
pub struct RestoreSoFar<'a> {
    /// The volume the program came from may have gone.
    pub esp_lost: bool,
    /// What was answered to the warning about that.
    pub warned: Option<bool>,
    /// The snapshots that can be used, and what is said of the rest.
    pub found: Option<(&'a [Saved], &'a [Line])>,
    /// What is said of the rest was shown.
    pub noted: bool,
    /// The snapshot that was chosen, or that the operator backed out.
    pub chosen: Option<Option<usize>>,
    /// The disk that was picked, or that the operator backed out.
    pub disk: Option<Option<&'a Disk>>,
    /// The answers to the screens of the restore itself.
    pub answers: &'a [bool],
}

/// What putting a snapshot back does next.
pub enum RestoreNext {
    /// Show the warning that the ESP may be gone.
    WarnEsp,
    /// Look through the volumes.
    Load,
    /// Say what could not be read.
    Note { lines: Vec<Line> },
    /// Choose a snapshot.
    Choose,
    /// Pick a disk.
    Pick,
    /// Go on with the restore itself, see [`run_restore`].
    Go(Next),
}

/// [`RestoreNext`] as a value.
pub enum RestoreNextView {
    WarnEsp,
    Load,
    Note { lines: Seq<LineView> },
    Choose,
    Pick,
    Go(NextView),
}

impl View for RestoreNext {
    type V = RestoreNextView;

    open spec fn view(&self) -> RestoreNextView {
        match self {
            RestoreNext::WarnEsp => RestoreNextView::WarnEsp,
            RestoreNext::Load => RestoreNextView::Load,
            RestoreNext::Note { lines } => RestoreNextView::Note { lines: shown(lines@) },
            RestoreNext::Choose => RestoreNextView::Choose,
            RestoreNext::Pick => RestoreNextView::Pick,
            RestoreNext::Go(next) => RestoreNextView::Go(next@),
        }
    }
}

impl<'a> RestoreSoFar<'a> {
    /// A snapshot that was chosen is one of those found.
    pub open spec fn wf(self) -> bool {
        &&& self.found matches Some((saved, _)) ==> all_have_blocks(saved@)
        &&& self.chosen matches Some(Some(i)) ==> (self.found matches Some((saved, _)) && i
            < saved@.len())
    }
}

/// What putting a snapshot back does once there is something to offer.
pub open spec fn offered_next(s: RestoreSoFar<'_>) -> RestoreNextView {
    match s.chosen {
        None => RestoreNextView::Choose,
        Some(None) => RestoreNextView::Go(NextView::Done),
        Some(Some(i)) => match s.disk {
            None => RestoreNextView::Pick,
            Some(None) => RestoreNextView::Go(NextView::Done),
            Some(Some(disk)) => RestoreNextView::Go(
                restore_next((s.found->0).0@[i as int].archive, *disk, s.answers@),
            ),
        },
    }
}

/// What putting a snapshot back does next.
pub open spec fn restoring_next(s: RestoreSoFar<'_>) -> RestoreNextView {
    let found = match s.found {
        Some((saved, rejected)) => Some((saved@.len() as usize, shown(rejected@))),
        None => None,
    };
    match opening(s.esp_lost, s.warned, found) {
        OpeningView::WarnEsp => RestoreNextView::WarnEsp,
        OpeningView::Load => RestoreNextView::Load,
        OpeningView::Nothing { lines } => RestoreNextView::Go(
            NextView::Tell { title: "Restore GPT"@, lines },
        ),
        OpeningView::Note { lines } => if s.noted {
            offered_next(s)
        } else {
            RestoreNextView::Note { lines }
        },
        OpeningView::Offer => offered_next(s),
        OpeningView::Done => RestoreNextView::Go(NextView::Done),
    }
}

fn offer(s: &RestoreSoFar<'_>) -> (r: RestoreNext)
    requires
        s.wf(),
    ensures
        r@ == offered_next(*s),
{
    let i: usize = match s.chosen {
        None => return RestoreNext::Choose,
        Some(None) => return RestoreNext::Go(Next::Done),
        Some(Some(i)) => i,
    };
    let disk = match s.disk {
        None => return RestoreNext::Pick,
        Some(None) => return RestoreNext::Go(Next::Done),
        Some(Some(disk)) => disk,
    };
    match s.found {
        Some((saved, _)) => {
            assert(saved@[i as int].archive.block_size > 0);
            RestoreNext::Go(run_restore(&saved[i].archive, disk, s.answers))
        },
        None => RestoreNext::Go(Next::Done),
    }
}

/// Put a saved snapshot back, from looking for one to writing it: the whole
/// conversation, in its order.
pub fn run_restore_from(s: &RestoreSoFar<'_>) -> (r: RestoreNext)
    requires
        s.wf(),
    ensures
        r@ == restoring_next(*s),
{
    let found: Option<(usize, Vec<Line>)> = match s.found {
        Some((saved, rejected)) => {
            assert(saved.len() == saved@.len());
            Some((saved.len(), copied_lines(rejected)))
        },
        None => None,
    };
    match restore_opening(s.esp_lost, s.warned, found) {
        Opening::WarnEsp => RestoreNext::WarnEsp,
        Opening::Load => RestoreNext::Load,
        Opening::Nothing { lines } => RestoreNext::Go(
            Next::Tell { title: "Restore GPT".to_owned(), lines },
        ),
        Opening::Note { lines } => {
            if s.noted {
                offer(s)
            } else {
                RestoreNext::Note { lines }
            }
        },
        Opening::Offer => offer(s),
        Opening::Done => RestoreNext::Go(Next::Done),
    }
}

// ------------------------------------------------------------------- backup

/// The volumes a snapshot goes to.
pub open spec fn dest_lines(dests: Seq<Volume>, cols: usize, n: nat) -> Seq<LineView>
    decreases n,
{
    if n == 0 {
        Seq::empty()
    } else {
        dest_lines(dests, cols, (n - 1) as nat) + volume_rows(dests[n - 1], cols)
    }
}

/// One of these is not removable.
pub open spec fn some_inside(dests: Seq<Volume>) -> bool {
    exists|i: int| 0 <= i < dests.len() && !(#[trigger] dests[i]).removable
}

/// What a copy on the disk being backed up is worth. Once a removable copy
/// is being made too, the same fact stops being a warning and becomes the
/// reason the other copy is worth having.
pub open spec fn same_disk_lines(dests: Seq<Volume>, boot: bool) -> Seq<LineView> {
    if !boot || !some_inside(dests) {
        Seq::empty()
    } else if stays_inside(dests) {
        seq![
            blank_line(),
            styled("  NOTE: the ESP is on this same disk, so this is a"@, Style::Warn),
            styled("  convenience copy, not an off-device backup. Copy the"@, Style::Warn),
            styled("  file elsewhere once you can boot again."@, Style::Warn),
        ]
    } else {
        seq![
            blank_line(),
            styled("  The ESP is on the disk being backed up, so it is the"@, Style::Normal),
            styled("  removable copy that survives losing this disk."@, Style::Normal),
        ]
    }
}

/// What is reviewed before a snapshot is saved.
pub open spec fn backup_lines(
    archive: Archive,
    len: nat,
    dests: Seq<Volume>,
    boot: bool,
    cols: usize,
) -> Seq<LineView> {
    archive_lines(archive@).push(blank_line()).push(
        styled(
            "  "@ + dec(len) + " bytes will be written to \\"@ + DIR@ + "\\ on:"@,
            Style::Normal,
        ),
    ) + dest_lines(dests, cols, dests.len()) + same_disk_lines(dests, boot)
}

fn any_inside(dests: &[Volume]) -> (r: bool)
    ensures
        r == some_inside(dests@),
{
    let mut i: usize = 0;
    while i < dests.len()
        invariant
            i <= dests@.len(),
            forall|j: int| 0 <= j < i ==> (#[trigger] dests@[j]).removable,
        decreases dests@.len() - i,
    {
        if !dests[i].removable {
            assert(!dests@[i as int].removable);
            return true;
        }
        i += 1;
    }
    false
}

fn render_same_disk(dests: &[Volume], boot: bool) -> (r: Vec<Line>)
    ensures
        shown(r@) == same_disk_lines(dests@, boot),
{
    let mut out = no_lines();
    if boot && any_inside(dests) {
        add_line(&mut out, Line::blank());
        if on_disk_only(dests) {
            add_line(&mut out, warn("  NOTE: the ESP is on this same disk, so this is a"));
            add_line(&mut out, warn("  convenience copy, not an off-device backup. Copy the"));
            add_line(&mut out, warn("  file elsewhere once you can boot again."));
        } else {
            add_line(&mut out, line("  The ESP is on the disk being backed up, so it is the"));
            add_line(&mut out, line("  removable copy that survives losing this disk."));
        }
    }
    assert(shown(out@) =~= same_disk_lines(dests@, boot));
    out
}

/// What taking a snapshot comes to, in the words the operator is shown.
pub open spec fn taken(
    r: Result<Archive, IoError>,
    said: Result<(Archive, Vec<u8>), String>,
) -> bool {
    match (r, said) {
        (Ok(a), Ok((b, bytes))) => a == b && bytes@ == sealed(archive_body(a@)),
        (Err(e), Err(text)) => text@ == "could not read the tables ("@ + e.message() + ")"@,
        _ => false,
    }
}

/// Take a snapshot of a disk: the MBR, both headers and both entry arrays,
/// and the file they make.
pub fn take_snapshot<D: BlockDevice + ?Sized>(
    dev: &mut D,
    analysis: &Analysis,
    time: Timestamp,
    meta: Vec<(String, String)>,
    crc: &impl Crc32,
) -> (r: Result<(Archive, Vec<u8>), String>)
    ensures
        exists|found: Result<Archive, IoError>|
            #![trigger taken(found, r)]
            capture_read(
                old(dev).trace(),
                final(dev).trace(),
                old(dev).blocks_of(),
                old(dev).last_of(),
                *analysis,
                time,
                pairs_of(meta@),
                found,
            ) && taken(found, r),
{
    let found = capture(dev, analysis, time, meta);
    match found {
        Ok(archive) => {
            let bytes = encode(&archive, crc);
            let r: Result<(Archive, Vec<u8>), String> = Ok((archive, bytes));
            assert(taken(Ok(archive), r));
            r
        },
        Err(e) => {
            let mut s = "could not read the tables (".to_owned();
            s.push_str(e.to_text());
            s.push_str(")");
            let r: Result<(Archive, Vec<u8>), String> = Err(s);
            assert(taken(Err(e), r));
            r
        },
    }
}

/// What is reviewed before a snapshot is saved. `bytes` is the file.
pub fn backup_review(
    archive: &Archive,
    bytes: &[u8],
    dests: &[Volume],
    boot: bool,
    cols: usize,
) -> (r: Vec<Line>)
    ensures
        shown(r@) == backup_lines(*archive, bytes@.len(), dests@, boot, cols),
{
    let mut out = describe_archive(archive);
    add_line(&mut out, Line::blank());
    let mut s = "  ".to_owned();
    s.push_str(dec_text(bytes.len() as u64).as_str());
    s.push_str(" bytes will be written to \\");
    s.push_str(DIR);
    s.push_str("\\ on:");
    add_line(&mut out, line(s));
    let ghost head = shown(out@);
    let mut i: usize = 0;
    assert(shown(out@) =~= head + dest_lines(dests@, cols, 0));
    while i < dests.len()
        invariant
            i <= dests@.len(),
            shown(out@) == head + dest_lines(dests@, cols, i as nat),
        decreases dests@.len() - i,
    {
        let ghost now = dest_lines(dests@, cols, i as nat);
        add_lines(&mut out, volume_lines(&dests[i], cols));
        assert(shown(out@) =~= head + (now + volume_rows(dests@[i as int], cols)));
        i += 1;
    }
    add_lines(&mut out, render_same_disk(dests, boot));
    out
}

/// What has happened so far about saving a snapshot.
pub struct BackupSoFar<'a> {
    /// The volume the program came from may have gone.
    pub esp_lost: bool,
    /// What was answered to the warning about that.
    pub warned: Option<bool>,
    /// The disk that was picked, or that the operator backed out.
    pub disk: Option<Option<&'a Disk>>,
    /// The snapshot and its file, or why there is none.
    pub taken: Option<&'a Result<(Archive, Vec<u8>), String>>,
    /// Whether destinations were chosen, or the operator backed out.
    pub chosen: Option<bool>,
    /// Whether the operator went on from the review.
    pub reviewed: Option<bool>,
}

/// What saving a snapshot does next.
pub enum BackupNext {
    /// Show the warning that the ESP may be gone.
    WarnEsp,
    /// Pick a disk.
    Pick,
    /// Take the snapshot, see [`take_snapshot`].
    Take,
    /// Choose where it goes.
    Choose,
    /// Show what will be saved; the answer is whether the operator went on.
    Review { title: String, lines: Vec<Line> },
    /// Show a message, and the operation is over.
    Tell { title: String, lines: Vec<Line> },
    /// Write the file and report what came of it.
    Save,
    /// The operation is over.
    Done,
}

/// [`BackupNext`] as a value.
pub enum BackupNextView {
    WarnEsp,
    Pick,
    Take,
    Choose,
    Review { title: Seq<char>, lines: Seq<LineView> },
    Tell { title: Seq<char>, lines: Seq<LineView> },
    Save,
    Done,
}

impl View for BackupNext {
    type V = BackupNextView;

    open spec fn view(&self) -> BackupNextView {
        match self {
            BackupNext::WarnEsp => BackupNextView::WarnEsp,
            BackupNext::Pick => BackupNextView::Pick,
            BackupNext::Take => BackupNextView::Take,
            BackupNext::Choose => BackupNextView::Choose,
            BackupNext::Review { title, lines } => BackupNextView::Review {
                title: title@,
                lines: shown(lines@),
            },
            BackupNext::Tell { title, lines } => BackupNextView::Tell {
                title: title@,
                lines: shown(lines@),
            },
            BackupNext::Save => BackupNextView::Save,
            BackupNext::Done => BackupNextView::Done,
        }
    }
}

/// A failed backup, in one line.
pub open spec fn backup_error(message: Seq<char>) -> BackupNextView {
    BackupNextView::Tell {
        title: "Back up GPT"@,
        lines: seq![styled("  "@ + message, Style::Bad)],
    }
}

/// What saving a snapshot does next.
pub open spec fn backup_next(s: BackupSoFar<'_>, dests: Seq<Volume>, cols: usize) ->
    BackupNextView {
    if s.esp_lost && s.warned is None {
        BackupNextView::WarnEsp
    } else if s.esp_lost && s.warned == Some(false) {
        BackupNextView::Done
    } else {
        match s.disk {
            None => BackupNextView::Pick,
            Some(None) => BackupNextView::Done,
            Some(Some(disk)) => match (disk.analysis, s.taken) {
                (Err(e), _) => backup_error(e@),
                (Ok(_), None) => BackupNextView::Take,
                (Ok(_), Some(Err(e))) => backup_error(e@),
                (Ok(_), Some(Ok((archive, bytes)))) => match (s.chosen, s.reviewed) {
                    (None, _) => BackupNextView::Choose,
                    (Some(false), _) => BackupNextView::Done,
                    (Some(true), None) => BackupNextView::Review {
                        title: "Back up GPT"@,
                        lines: backup_lines(*archive, bytes@.len(), dests, disk.boot, cols),
                    },
                    (Some(true), Some(false)) => BackupNextView::Done,
                    (Some(true), Some(true)) => BackupNextView::Save,
                },
            },
        }
    }
}

/// Save both GPTs to the ESP, to removable media, or to both.
///
/// Writing a file needs no confirmation sequence: it creates data, it does
/// not overwrite a partition table, and it never replaces an existing
/// snapshot.
pub fn run_backup(s: &BackupSoFar<'_>, dests: &[Volume], cols: usize) -> (r: BackupNext)
    ensures
        r@ == backup_next(*s, dests@, cols),
{
    if s.esp_lost {
        match s.warned {
            None => return BackupNext::WarnEsp,
            Some(false) => return BackupNext::Done,
            Some(true) => {},
        }
    }
    let disk = match s.disk {
        None => return BackupNext::Pick,
        Some(None) => return BackupNext::Done,
        Some(Some(disk)) => disk,
    };
    if let Err(e) = &disk.analysis {
        return BackupNext::Tell {
            title: "Back up GPT".to_owned(),
            lines: show_error(e.as_str()),
        };
    }
    let (archive, bytes) = match s.taken {
        None => return BackupNext::Take,
        Some(Err(e)) => return BackupNext::Tell {
            title: "Back up GPT".to_owned(),
            lines: show_error(e.as_str()),
        },
        Some(Ok((archive, bytes))) => (archive, bytes),
    };
    match s.chosen {
        None => return BackupNext::Choose,
        Some(false) => return BackupNext::Done,
        Some(true) => {},
    }
    match s.reviewed {
        None => BackupNext::Review {
            title: "Back up GPT".to_owned(),
            lines: backup_review(archive, bytes.as_slice(), dests, disk.boot, cols),
        },
        Some(false) => BackupNext::Done,
        Some(true) => BackupNext::Save,
    }
}

/// What is said of a snapshot that was saved, or of one that was not.
pub open spec fn backup_outcome(
    outcome: Result<Written, String>,
    dests: Seq<Volume>,
    attached: bool,
) -> NextView {
    match outcome {
        Err(e) => error_of("Back up GPT FAILED"@, e@),
        Ok(w) => if w.ok@.len() == 0 {
            NextView::Tell {
                title: "Back up GPT FAILED"@,
                lines: seq![styled("  Nothing was written:"@, Style::Bad)] + w.all_lines(),
            }
        } else {
            NextView::Tell {
                title: "Back up GPT"@,
                lines: seq![styled("  Saved as:"@, Style::Good)] + w.all_lines() + seq![
                    blank_line(),
                    styled("  Restore offers whatever it finds, on the ESP and on"@, Style::Dim),
                    styled("  any removable media attached at the time."@, Style::Dim),
                ] + hint_lines(dests, attached),
            }
        },
    }
}

/// What came of saving a snapshot.
pub fn report_backup(outcome: &Result<Written, String>, dests: &[Volume], attached: bool) -> (r:
    Next)
    ensures
        r@ == backup_outcome(*outcome, dests@, attached),
{
    match outcome {
        Err(e) => fail("Back up GPT FAILED", e.as_str()),
        Ok(w) => {
            let mut lines = no_lines();
            if !w.any() {
                add_line(&mut lines, bad("  Nothing was written:"));
                let ghost head = shown(lines@);
                add_lines(&mut lines, w.lines());
                assert(shown(lines@) =~= seq![styled("  Nothing was written:"@, Style::Bad)]
                    + w.all_lines());
                return Next::Tell { title: "Back up GPT FAILED".to_owned(), lines };
            }
            add_line(&mut lines, good("  Saved as:"));
            add_lines(&mut lines, w.lines());
            add_line(&mut lines, Line::blank());
            add_line(&mut lines, dim("  Restore offers whatever it finds, on the ESP and on"));
            add_line(&mut lines, dim("  any removable media attached at the time."));
            add_lines(&mut lines, attach_hint(dests, attached));
            assert(shown(lines@) =~= seq![styled("  Saved as:"@, Style::Good)] + w.all_lines()
                + seq![
                blank_line(),
                styled("  Restore offers whatever it finds, on the ESP and on"@, Style::Dim),
                styled("  any removable media attached at the time."@, Style::Dim),
            ] + hint_lines(dests@, attached));
            Next::Tell { title: "Back up GPT".to_owned(), lines }
        },
    }
}

// ----------------------------------------------------------- smaller screens

/// What is asked once a disk was written with exclusive access.
pub open spec fn esp_warning_lines() -> Seq<LineView> {
    seq![
        styled("  A disk was written to with exclusive access during this"@, Style::Warn),
        styled("  session, which disconnects the firmware's filesystem"@, Style::Warn),
        styled("  driver for that disk."@, Style::Warn),
        blank_line(),
        styled("  Reading or writing files on the ESP may fail until you"@, Style::Normal),
        styled("  reboot. Continue anyway?"@, Style::Key),
    ]
}

/// What is asked once a disk was written with exclusive access.
pub fn warn_esp_may_be_gone() -> (r: Next)
    ensures
        r@ == page_of("The ESP may no longer be reachable"@, esp_warning_lines()),
{
    let mut out = no_lines();
    add_line(&mut out, warn("  A disk was written to with exclusive access during this"));
    add_line(&mut out, warn("  session, which disconnects the firmware's filesystem"));
    add_line(&mut out, warn("  driver for that disk."));
    add_line(&mut out, Line::blank());
    add_line(&mut out, line("  Reading or writing files on the ESP may fail until you"));
    add_line(&mut out, key("  reboot. Continue anyway?"));
    assert(shown(out@) =~= esp_warning_lines());
    page("The ESP may no longer be reachable", out)
}

/// What is said before the machine restarts.
pub open spec fn reboot_lines() -> Seq<LineView> {
    seq![
        styled("  The machine restarts now."@, Style::Warn),
        blank_line(),
        styled("  Nothing is written by this. Anything this session"@, Style::Normal),
        styled("  changed has already been written and flushed."@, Style::Normal),
    ]
}

/// Restart the machine, after one confirmation. Nothing is written on the
/// way out, so this is gated by an acknowledgement and not by the
/// confirmation sequence: that is for writes.
pub fn run_reboot() -> (r: Next)
    ensures
        r@ == page_of("Reboot"@, reboot_lines()),
{
    let mut out = no_lines();
    add_line(&mut out, warn("  The machine restarts now."));
    add_line(&mut out, Line::blank());
    add_line(&mut out, line("  Nothing is written by this. Anything this session"));
    add_line(&mut out, line("  changed has already been written and flushed."));
    assert(shown(out@) =~= reboot_lines());
    page("Reboot", out)
}

/// What is said at the end where the firmware could not compute a CRC.
pub open spec fn fallback_lines() -> Seq<LineView> {
    seq![
        styled("  Firmware CalculateCrc32 was unavailable;"@, Style::Warn),
        styled("  the built-in implementation was used instead."@, Style::Warn),
    ]
}

/// What is said at the end where the firmware could not compute a CRC.
pub fn fallback_note() -> (r: Vec<Line>)
    ensures
        shown(r@) == fallback_lines(),
{
    let mut out = no_lines();
    add_line(&mut out, warn("  Firmware CalculateCrc32 was unavailable;"));
    add_line(&mut out, warn("  the built-in implementation was used instead."));
    out
}

// --------------------------------------------------------------------- laws

/// Nothing is written to a disk unless the operator went on from every page
/// shown before it and then entered the confirmation sequence.
pub proof fn no_write_without_authority(disk: Disk, archive: Archive, answers: Seq<bool>)
    ensures
        repair_next(disk, answers) is Write ==> answers.len() >= 2 && answers[0] && answers[1],
        prevent_next(disk, answers) is Write ==> answers.len() >= 3 && answers[0] && answers[1]
            && answers[2],
        restore_next(archive, disk, answers) is Write ==> answers.len() >= 2 && answers[0]
            && answers[1],
{
}

/// A snapshot is put back only once it was chosen among those that could be
/// read, a disk was picked, the operator went on from the review and entered
/// the confirmation sequence.
pub proof fn no_restore_without_choosing(s: RestoreSoFar<'_>)
    ensures
        restoring_next(s) matches RestoreNextView::Go(NextView::Write { plan, .. }) ==> {
            &&& s.chosen is Some && s.chosen->0 is Some && s.found is Some
            &&& plan == restored_plan((s.found->0).0@[s.chosen->0->0 as int].archive@)
            &&& s.disk is Some && s.disk->0 is Some
            &&& s.answers@.len() >= 2 && s.answers@[0] && s.answers@[1]
        },
{
}

proof fn a_repair_was_shown(disk: Disk, answers: Seq<bool>)
    ensures
        repair_next(disk, answers) matches NextView::Write { plan, .. } ==> (repair_next(
            disk,
            answers.take(0),
        ) matches NextView::Page { lines, .. } && ends_with_lines(lines, plan_lines(plan.steps))),
{
    if let NextView::Write { plan, .. } = repair_next(disk, answers) {
        let lines = reviewed_lines(disk.analysis->Ok_0);
        let end = plan_lines(plan.steps);
        assert(lines.skip(lines.len() - end.len()) =~= end);
    }
}

proof fn closing_the_gap_was_shown(disk: Disk, answers: Seq<bool>)
    ensures
        prevent_next(disk, answers) matches NextView::Write { plan, .. } ==> (prevent_next(
            disk,
            answers.take(1),
        ) matches NextView::Page { lines, .. } && lines == plan_lines(plan.steps)),
{
}

proof fn a_restore_was_shown(disk: Disk, archive: Archive, answers: Seq<bool>)
    ensures
        restore_next(archive, disk, answers) matches NextView::Write { plan, .. } ==> (
        restore_next(archive, disk, answers.take(0)) matches NextView::Page { lines, .. }
            && ends_with_lines(lines, plan_lines(plan.steps))),
{
    if let NextView::Write { plan, .. } = restore_next(archive, disk, answers) {
        let lines = restore_lines(archive, disk, disk.analysis->Ok_0);
        let end = plan_lines(plan.steps);
        assert(lines.skip(lines.len() - end.len()) =~= end);
    }
}

/// What is written is what was shown: the steps of the write are the steps
/// the page before it listed.
pub proof fn what_is_written_was_shown(disk: Disk, archive: Archive, answers: Seq<bool>)
    ensures
        repair_next(disk, answers) matches NextView::Write { plan, .. } ==> (repair_next(
            disk,
            answers.take(0),
        ) matches NextView::Page { lines, .. } && ends_with_lines(lines, plan_lines(plan.steps))),
        prevent_next(disk, answers) matches NextView::Write { plan, .. } ==> (prevent_next(
            disk,
            answers.take(1),
        ) matches NextView::Page { lines, .. } && lines == plan_lines(plan.steps)),
        restore_next(archive, disk, answers) matches NextView::Write { plan, .. } ==> (
        restore_next(archive, disk, answers.take(0)) matches NextView::Page { lines, .. }
            && ends_with_lines(lines, plan_lines(plan.steps))),
{
    a_repair_was_shown(disk, answers);
    closing_the_gap_was_shown(disk, answers);
    a_restore_was_shown(disk, archive, answers);
}

/// `lines` ends with `end`.
pub open spec fn ends_with_lines(lines: Seq<LineView>, end: Seq<LineView>) -> bool {
    end.len() <= lines.len() && lines.skip(lines.len() - end.len()) == end
}

/// A snapshot is only saved once the operator chose where and went on from
/// the review, and never of a disk that could not be read.
pub proof fn no_file_without_a_review(s: BackupSoFar<'_>, dests: Seq<Volume>, cols: usize)
    ensures
        backup_next(s, dests, cols) is Save ==> s.chosen == Some(true) && s.reviewed == Some(true)
            && (s.disk matches Some(Some(d)) && d.analysis is Ok),
{
}

/// A disk whose table could not be read, and one a snapshot does not fit,
/// are never written to, whatever is answered.
pub proof fn an_unread_disk_is_not_written(disk: Disk, archive: Archive, answers: Seq<bool>)
    ensures
        disk.analysis is Err ==> !(repair_next(disk, answers) is Write) && !(prevent_next(
            disk,
            answers,
        ) is Write) && !(restore_next(archive, disk, answers) is Write),
        disk.analysis matches Ok(a) ==> unfit(archive@, a.block_size, a.last_block) is Some ==> !(
        restore_next(archive, disk, answers) is Write),
{
}

/// Whoever goes on from every page and enters the confirmation sequence gets
/// the operation they asked for: the repair of the disk, its gap closed, the
/// snapshot put back. Nothing else is written in its place.
pub proof fn going_on_carries_out_the_plan(
    disk: Disk,
    a: Analysis,
    archive: Archive,
    answers: Seq<bool>,
    current: u64,
    proposed: u64,
)
    requires
        disk.analysis == Ok::<Analysis, String>(a),
        answers.len() >= 3,
        answers[0] && answers[1] && answers[2],
    ensures
        a.planned() ==> (repair_next(disk, answers) matches NextView::Write { plan, .. } && plan
            == a.repair_plan()),
        !a.planned() ==> repair_next(disk, answers) is Done,
        gap_verdict(a) == (GapVerdict::Applicable { current, proposed }) ==> (prevent_next(
            disk,
            answers,
        ) matches NextView::Write { plan, .. } && plan == gap_plan(a, proposed)),
        !(gap_verdict(a) is Applicable) ==> prevent_next(disk, answers) is Done,
        unfit(archive@, a.block_size, a.last_block) is None ==> (restore_next(
            archive,
            disk,
            answers,
        ) matches NextView::Write { plan, .. } && plan == restored_plan(archive@)),
        unfit(archive@, a.block_size, a.last_block) is Some ==> restore_next(
            archive,
            disk,
            answers,
        ) is Tell,
{
}

/// Backing out of any screen ends the operation with nothing written.
pub proof fn backing_out_writes_nothing(disk: Disk, archive: Archive, answers: Seq<bool>, k: int)
    requires
        0 <= k < answers.len(),
        !answers[k],
    ensures
        k < 2 ==> !(repair_next(disk, answers) is Write),
        k < 3 ==> !(prevent_next(disk, answers) is Write),
        k < 2 ==> !(restore_next(archive, disk, answers) is Write),
{
}

/// A check only ever shows a page or says why it cannot.
pub proof fn the_first_screens_are_pages(disk: Disk, archive: Archive)
    ensures
        disk.analysis is Ok ==> repair_next(disk, Seq::empty()) is Page && prevent_next(
            disk,
            Seq::empty(),
        ) is Page && !(restore_next(archive, disk, Seq::empty()) is Write),
        disk.analysis is Ok && (disk.analysis->Ok_0).planned() ==> repair_next(
            disk,
            seq![true],
        ) is Gate,
{
}

/// What a backup does, step by step: pick a disk, take the snapshot of it,
/// choose where it goes, review it, save it. Each step waits for the one
/// before it, and a snapshot that was taken, chosen a place and reviewed is
/// saved.
pub proof fn a_backup_goes_step_by_step(
    s: BackupSoFar<'_>,
    dests: Seq<Volume>,
    cols: usize,
    disk: &Disk,
    archive: Archive,
    bytes: Vec<u8>,
)
    requires
        s.esp_lost ==> s.warned == Some(true),
    ensures
        s.disk is None ==> backup_next(s, dests, cols) is Pick,
        s.disk == Some(Some(disk)) && disk.analysis is Ok && s.taken is None ==> backup_next(
            s,
            dests,
            cols,
        ) is Take,
        s.disk == Some(Some(disk)) && disk.analysis is Ok && s.taken == Some(
            &Ok::<(Archive, Vec<u8>), String>((archive, bytes)),
        ) ==> {
            &&& s.chosen is None ==> backup_next(s, dests, cols) is Choose
            &&& s.chosen == Some(true) && s.reviewed is None ==> (backup_next(
                s,
                dests,
                cols,
            ) matches BackupNextView::Review { lines, .. } && lines.len() > archive_lines(
                archive@,
            ).len() && lines.take(archive_lines(archive@).len() as int) == archive_lines(archive@))
            &&& s.chosen == Some(true) && s.reviewed == Some(true) ==> backup_next(
                s,
                dests,
                cols,
            ) is Save
        },
        s.disk == Some(Some(disk)) && disk.analysis is Err ==> backup_next(s, dests, cols) is Tell,
{
    let lines = backup_lines(archive, bytes@.len(), dests, disk.boot, cols);
    assert(lines.take(archive_lines(archive@).len() as int) =~= archive_lines(archive@));
}

/// The file a snapshot is saved as reads back as that snapshot.
pub proof fn the_file_saved_is_the_snapshot_taken(
    r: Result<Archive, IoError>,
    said: Result<(Archive, Vec<u8>), String>,
)
    requires
        taken(r, said),
    ensures
        said is Ok <==> r is Ok,
        said matches Ok((a, bytes)) ==> Ok::<Archive, IoError>(a) == r && bytes@ == sealed(
            archive_body(a@),
        ),
{
}

/// A snapshot is looked for before it is chosen, chosen before a disk is
/// picked, and then put back as far as the answers go: the one that was
/// chosen, onto the disk that was picked.
pub proof fn a_restore_goes_step_by_step(s: RestoreSoFar<'_>, i: usize, disk: &Disk)
    requires
        s.wf(),
        s.esp_lost ==> s.warned == Some(true),
        s.found matches Some((saved, rejected)) && saved@.len() > 0 && saved@.len() <= usize::MAX
            && (s.noted || rejected@.len() == 0),
    ensures
        s.chosen is None ==> restoring_next(s) is Choose,
        s.chosen == Some(Some(i)) && s.disk is None ==> restoring_next(s) is Pick,
        s.chosen == Some(Some(i)) && s.disk == Some(Some(disk)) ==> restoring_next(s)
            == RestoreNextView::Go(
            restore_next((s.found->0).0@[i as int].archive, *disk, s.answers@),
        ),
        s.chosen == Some(None::<usize>) ==> restoring_next(s) == RestoreNextView::Go(NextView::Done),
{
}


/// A backup is called saved only if some copy was written, and failed
/// otherwise; either way every copy is accounted for.
pub proof fn a_backup_is_saved_only_if_written(
    outcome: Result<Written, String>,
    dests: Seq<Volume>,
    attached: bool,
)
    ensures
        outcome matches Err(e) ==> backup_outcome(outcome, dests, attached) == (NextView::Tell {
            title: "Back up GPT FAILED"@,
            lines: seq![styled("  "@ + e@, Style::Bad)],
        }),
        outcome matches Ok(w) ==> (w.ok@.len() == 0 ==> (backup_outcome(
            outcome,
            dests,
            attached,
        ) matches NextView::Tell { title, lines } && title == "Back up GPT FAILED"@ && lines[0]
            == styled("  Nothing was written:"@, Style::Bad) && lines.skip(1) == w.all_lines())),
        outcome matches Ok(w) ==> (w.ok@.len() > 0 ==> (backup_outcome(
            outcome,
            dests,
            attached,
        ) matches NextView::Tell { title, lines } && title == "Back up GPT"@ && lines[0] == styled(
            "  Saved as:"@,
            Style::Good,
        ) && lines.subrange(1, 1 + w.all_lines().len() as int) == w.all_lines())),
{
    if let Ok(w) = outcome {
        let lines = backup_outcome(outcome, dests, attached)->Tell_lines;
        assert(lines.skip(1) =~= w.all_lines() || w.ok@.len() > 0);
        assert(lines.subrange(1, 1 + w.all_lines().len() as int) =~= w.all_lines());
    }
}

/// The operator is warned of a snapshot taken from a damaged table, and of one
/// that nothing but its geometry ties to the disk, and of no other.
pub proof fn a_doubtful_restore_is_warned_of(archive: Archive, disk: Disk, a: Analysis)
    ensures
        restore_warning(archive)[0] == styled(
            "  This REPLACES both partition tables with the saved copy."@,
            Style::Bad,
        ),
        restore_warning(archive).len() > 1 <==> !(archive.health == Health::Healthy
            || archive.health == Health::MbrOnly),
        !(archive.health == Health::Healthy || archive.health == Health::MbrOnly)
            ==> restore_warning(archive).last() == styled(
            "  WARNING: this snapshot was taken from a DAMAGED table."@,
            Style::Bad,
        ),
        comparison(archive@, a).conclusion() == Match::SameGeometry ==> restore_lines(
            archive,
            disk,
            a,
        ).contains(
            styled("  NOTE: nothing in this snapshot identifies it as this"@, Style::Warn),
        ),
        comparison(archive@, a).conclusion() != Match::SameGeometry ==> restore_lines(
            archive,
            disk,
            a,
        ) == inspection_lines(
            archive@,
            Some(("Disk "@ + dec(disk.number as nat), comparison(archive@, a))),
        ) + plan_lines(restore_steps(archive@)),
{
    let c = comparison(archive@, a);
    let seen = inspection_lines(archive@, Some(("Disk "@ + dec(disk.number as nat), c)));
    let all = restore_lines(archive, disk, a);
    if c.conclusion() == Match::SameGeometry {
        assert(all[seen.len() + 1int] == styled(
            "  NOTE: nothing in this snapshot identifies it as this"@,
            Style::Warn,
        ));
    }
}

/// What a repair is about to do is said as it is: only the protective MBR
/// where that is all that is wrong, and the whole table otherwise.
pub proof fn a_repair_is_announced_as_what_it_is(verdict: Verdict)
    ensures
        verdict == Verdict::MbrOnly ==> repair_warning(verdict)[0] == styled(
            "  This rewrites the protective MBR on this disk."@,
            Style::Warn,
        ),
        verdict != Verdict::MbrOnly ==> repair_warning(verdict)[0] == styled(
            "  This REWRITES the partition table on this disk."@,
            Style::Bad,
        ),
{
}

/// A copy kept on the disk it was taken of is noted as no backup of that disk,
/// unless another goes elsewhere.
pub proof fn a_copy_on_the_same_disk_is_noted(dests: Seq<Volume>, boot: bool)
    ensures
        same_disk_lines(dests, boot).len() == 4 <==> boot && dests.len() > 0 && forall|i: int|
            0 <= i < dests.len() ==> !(#[trigger] dests[i]).removable,
        same_disk_lines(dests, boot).len() == 3 <==> boot && (exists|i: int|
            0 <= i < dests.len() && !(#[trigger] dests[i]).removable) && (exists|i: int|
            0 <= i < dests.len() && (#[trigger] dests[i]).removable),
        !boot ==> same_disk_lines(dests, boot).len() == 0,
        same_disk_lines(dests, boot).len() == 4 ==> same_disk_lines(dests, boot)[1] == styled(
            "  NOTE: the ESP is on this same disk, so this is a"@,
            Style::Warn,
        ),
{
    if dests.len() > 0 {
        assert(dests[0] == dests[0]);
        if stays_inside(dests) {
            assert(!dests[0].removable);
        }
    }
}


/// A check shows what was found and the table it was found in, and ends by
/// saying that nothing was written.
pub proof fn a_check_shows_what_was_found(disk: Disk, a: Analysis, cols: usize, i: int)
    ensures
        check_lines(disk, a, cols).last() == styled(
            "  Nothing was written. This check never modifies a disk."@,
            Style::Good,
        ),
        0 <= i < analysis_lines(a).len() ==> check_lines(disk, a, cols).contains(
            analysis_lines(a)[i],
        ),
        a.best() matches Some(t) ==> ({
            let rows = entries_lines(
                t.entries@,
                a.block_size,
                t.header.disk_guid,
                if t.valid() {
                    "Current table:"@
                } else {
                    "Table as far as it could be read:"@
                },
            );
            0 <= i < rows.len() ==> check_lines(disk, a, cols).contains(rows[i])
        }),
{
    let all = check_lines(disk, a, cols);
    let path = wrapped_lines(
        "  "@ + disk.path@,
        writable_width(cols as int) as nat,
        Style::Dim,
        "    "@,
    ).push(blank_line());
    let head = path + analysis_lines(a);
    if 0 <= i < analysis_lines(a).len() {
        assert(head[path.len() + i] == analysis_lines(a)[i]);
        assert(all[path.len() + i] == analysis_lines(a)[i]);
    }
    if let Some(t) = a.best() {
        let rows = entries_lines(
            t.entries@,
            a.block_size,
            t.header.disk_guid,
            if t.valid() {
                "Current table:"@
            } else {
                "Table as far as it could be read:"@
            },
        );
        if 0 <= i < rows.len() {
            assert(all[head.len() + i] == rows[i]);
        }
    }
}

} // verus!
