//! What each operation on the boot configuration does next.
//!
//! Like [`crate::flows`], but for NVRAM: every change is prepared as a
//! review, a warning and the writes themselves, and one funnel takes all of
//! them through the same steps in the same order.

use crate::bootopt::{
    an_entry_is_laid_out_for_the_firmware, moving_a_slot_leaves_the_others_in_order, option_bytes,
    option_says, order_says, registering_adds_one_slot_to_the_order, slot_name_reads_back,
    slot_of_text, written_entry_reads_back, written_order_reads_back, DecodeError,
    next_free_slot, order_row, unit_bytes, plan_boot_next, plan_register, plan_set_default, register_writes,
    render_order_change, render_plan, reorder, row_by, slot_first, slot_name, slot_text, summary,
    summary_text, var_writes_of, write_lines, LoadOption, LoadOptionView, VarWrite, VarWriteView,
    LOAD_OPTION_ACTIVE,
};
use crate::bytes::{bytes16, le16, le16_reads_bytes16, le32};
use crate::bootview::{path_in, place_of, slot_title, slot_with_name};
use crate::disks::{show_error, show_note};
use crate::espscan::{suggested_description, suggestion, Candidate, EspScan};
use crate::nvram::{holds_slot, orphans_are_what_the_order_misses, outside, BootState};
use crate::pages::{add_item, item_view, items_of, no_items, Item, ItemView};
use crate::report::{human, human_size};
use crate::style::{
    add_line, add_lines, bad, blank_line, dim, good, key, line, no_lines, shown, styled, warn,
    wrapped_lines, Line, LineView, Style,
};
use crate::text::{dec, dec_text, succ_text};
use crate::ui::{wrapped, writable_width};
use crate::volumes::{attach_hint, copied_lines, hint_lines, Volume, Written};
use vstd::prelude::*;

verus! {

/// A change to NVRAM, ready to be reviewed.
pub struct Change {
    pub title: String,
    /// What the operator reviews.
    pub review: Vec<Line>,
    /// What stands above the confirmation sequence.
    pub warning: Vec<Line>,
    pub writes: Vec<VarWrite>,
}

/// [`Change`] as a value.
pub struct ChangeView {
    pub title: Seq<char>,
    pub review: Seq<LineView>,
    pub warning: Seq<LineView>,
    pub writes: Seq<VarWriteView>,
}

impl View for Change {
    type V = ChangeView;

    open spec fn view(&self) -> ChangeView {
        ChangeView {
            title: self.title@,
            review: shown(self.review@),
            warning: shown(self.warning@),
            writes: var_writes_of(self.writes@),
        }
    }
}

/// What a change does next.
pub enum BootNext {
    /// Show a page; the answer is whether the operator went on.
    Page { title: String, lines: Vec<Line> },
    /// Save the boot configuration, see [`ensure_boot_snapshot`]; the answer
    /// is whether to go on.
    Snapshot,
    /// Ask for the confirmation sequence; the answer is whether it was
    /// entered.
    Gate { title: String, warning: Vec<Line> },
    /// Show a message, and the operation is over.
    Tell { title: String, lines: Vec<Line> },
    /// Carry out the writes, see [`crate::nvram::apply`].
    Apply,
    /// The operation is over.
    Done,
}

/// [`BootNext`] as a value.
pub enum BootNextView {
    Page { title: Seq<char>, lines: Seq<LineView> },
    Snapshot,
    Gate { title: Seq<char>, warning: Seq<LineView> },
    Tell { title: Seq<char>, lines: Seq<LineView> },
    Apply,
    Done,
}

impl View for BootNext {
    type V = BootNextView;

    open spec fn view(&self) -> BootNextView {
        match self {
            BootNext::Page { title, lines } => BootNextView::Page {
                title: title@,
                lines: shown(lines@),
            },
            BootNext::Snapshot => BootNextView::Snapshot,
            BootNext::Gate { title, warning } => BootNextView::Gate {
                title: title@,
                warning: shown(warning@),
            },
            BootNext::Tell { title, lines } => BootNextView::Tell {
                title: title@,
                lines: shown(lines@),
            },
            BootNext::Apply => BootNextView::Apply,
            BootNext::Done => BootNextView::Done,
        }
    }
}

// ---------------------------------------------------------------- the funnel

/// What a cancelled change says.
pub open spec fn cancelled(title: Seq<char>) -> BootNextView {
    BootNextView::Tell {
        title,
        lines: seq![styled("  "@ + "Cancelled. Nothing was written."@, Style::Warn)],
    }
}

/// What a change does after these answers: the review, then the snapshot,
/// then the confirmation sequence, and only then the writes.
pub open spec fn change_next(c: ChangeView, answers: Seq<bool>) -> BootNextView {
    if answers.len() == 0 {
        BootNextView::Page {
            title: c.title,
            lines: c.review.push(blank_line()) + write_lines(c.writes),
        }
    } else if !answers[0] {
        BootNextView::Done
    } else if answers.len() == 1 {
        BootNextView::Snapshot
    } else if !answers[1] {
        cancelled(c.title)
    } else if answers.len() == 2 {
        BootNextView::Gate { title: "Authorise NVRAM write"@, warning: c.warning }
    } else if !answers[2] {
        cancelled(c.title)
    } else {
        BootNextView::Apply
    }
}

fn cancel(title: &str) -> (r: BootNext)
    ensures
        r@ == cancelled(title@),
{
    BootNext::Tell { title: title.to_owned(), lines: show_note("Cancelled. Nothing was written.") }
}

/// Show the plan, take the snapshot, take the confirmation, write.
///
/// One funnel for every operation so the order of those four steps is
/// decided once. The snapshot comes after the review page and before the
/// gate: no file is written for a plan the operator walked away from, and
/// the lock stays the last thing between them and NVRAM.
pub fn authorise_and_write(c: &Change, answers: &[bool]) -> (r: BootNext)
    ensures
        r@ == change_next(c@, answers@),
{
    if answers.len() == 0 {
        let mut lines = copied_lines(c.review.as_slice());
        add_line(&mut lines, Line::blank());
        add_lines(&mut lines, render_plan(c.writes.as_slice()));
        return BootNext::Page { title: c.title.clone(), lines };
    }
    if !answers[0] {
        return BootNext::Done;
    }
    if answers.len() == 1 {
        return BootNext::Snapshot;
    }
    if !answers[1] {
        return cancel(c.title.as_str());
    }
    if answers.len() == 2 {
        return BootNext::Gate {
            title: "Authorise NVRAM write".to_owned(),
            warning: copied_lines(c.warning.as_slice()),
        };
    }
    if !answers[2] {
        return cancel(c.title.as_str());
    }
    BootNext::Apply
}

/// The names of the first `n` writes, a line each.
pub open spec fn landed_lines(writes: Seq<VarWrite>, n: nat) -> Seq<LineView> {
    Seq::new(n, |i: int| styled("    "@ + writes[i].name@, Style::Key))
}

/// What is said of a change that was carried out, or that stopped.
pub open spec fn applied_lines(writes: Seq<VarWrite>, result: Result<(), (usize, String)>) -> Seq<
    LineView,
> {
    match result {
        Ok(_) => seq![
            styled("  Written to NVRAM."@, Style::Good),
            blank_line(),
            styled("  Reboot for this to take effect."@, Style::Key),
        ],
        Err((done, e)) => {
            let head = seq![styled("  "@ + e@, Style::Bad), blank_line()];
            if done == 0 {
                head.push(styled("  Nothing was written; NVRAM is as it was."@, Style::Good))
            } else {
                head.push(
                    styled(
                        "  "@ + dec(done as nat) + " of "@ + dec(writes.len())
                            + " writes had already landed:"@,
                        Style::Warn,
                    ),
                ) + landed_lines(writes, done as nat) + seq![
                    blank_line(),
                    styled("  \"View the boot entries\" shows the result. An"@, Style::Normal),
                    styled("  entry that is not in the boot order is harmless;"@, Style::Normal),
                    styled("  the firmware ignores it."@, Style::Normal),
                ]
            }
        },
    }
}

/// What came of the writes, for the operator: a title, and what is said.
pub fn report_applied(
    title: &str,
    writes: &[VarWrite],
    result: &Result<(), (usize, String)>,
) -> (r: (String, Vec<Line>))
    requires
        result matches Err((done, _)) ==> done <= writes@.len(),
    ensures
        r.0@ == if result is Ok {
            title@
        } else {
            title@ + " FAILED"@
        },
        shown(r.1@) == applied_lines(writes@, *result),
{
    let mut lines = no_lines();
    match result {
        Ok(_) => {
            add_line(&mut lines, good("  Written to NVRAM."));
            add_line(&mut lines, Line::blank());
            add_line(&mut lines, key("  Reboot for this to take effect."));
            assert(shown(lines@) =~= applied_lines(writes@, *result));
            (title.to_owned(), lines)
        },
        Err((done, e)) => {
            let done: usize = *done;
            let mut s = "  ".to_owned();
            s.push_str(e.as_str());
            add_line(&mut lines, bad(s));
            add_line(&mut lines, Line::blank());
            if done == 0 {
                add_line(&mut lines, good("  Nothing was written; NVRAM is as it was."));
            } else {
                let mut s = "  ".to_owned();
                s.push_str(dec_text(done as u64).as_str());
                s.push_str(" of ");
                s.push_str(dec_text(writes.len() as u64).as_str());
                s.push_str(" writes had already landed:");
                add_line(&mut lines, warn(s));
                let ghost head = shown(lines@);
                let mut i: usize = 0;
                assert(shown(lines@) =~= head + landed_lines(writes@, 0));
                while i < done
                    invariant
                        i <= done,
                        done <= writes@.len(),
                        shown(lines@) == head + landed_lines(writes@, i as nat),
                    decreases done - i,
                {
                    let mut s = "    ".to_owned();
                    s.push_str(writes[i].name.as_str());
                    add_line(&mut lines, key(s));
                    i += 1;
                    assert(shown(lines@) =~= head + landed_lines(writes@, i as nat));
                }
                add_line(&mut lines, Line::blank());
                add_line(&mut lines, line("  \"View the boot entries\" shows the result. An"));
                add_line(&mut lines, line("  entry that is not in the boot order is harmless;"));
                add_line(&mut lines, line("  the firmware ignores it."));
            }
            assert(shown(lines@) =~= applied_lines(writes@, *result));
            let mut failed = title.to_owned();
            failed.push_str(" FAILED");
            (failed, lines)
        },
    }
}

// -------------------------------------------------------------- the snapshot

/// What has happened so far about saving the boot configuration.
pub struct SoFar {
    /// A copy was saved earlier in this session.
    pub taken: bool,
    /// The volume the program came from may have gone.
    pub esp_lost: bool,
    /// What was answered to the warning about that.
    pub warned: Option<bool>,
    /// Whether destinations were chosen, or the operator backed out.
    pub chosen: Option<bool>,
    /// What came of saving.
    pub outcome: Option<Result<Written, String>>,
    /// Whether to go on without a saved copy.
    pub agreed: Option<bool>,
}

/// What saving the boot configuration does next.
pub enum SnapshotNext {
    /// Show the warning that the ESP may be gone.
    WarnEsp,
    /// Choose where it goes.
    Choose,
    /// Read NVRAM and save it.
    Take,
    /// It was saved: say so. It counts as taken from here on.
    Saved { lines: Vec<Line> },
    /// It could not be saved: ask whether to go on.
    Ask { lines: Vec<Line> },
    /// Whether to go on.
    Settled(bool),
}

/// [`SnapshotNext`] as a value.
pub enum SnapshotNextView {
    WarnEsp,
    Choose,
    Take,
    Saved { lines: Seq<LineView> },
    Ask { lines: Seq<LineView> },
    Settled(bool),
}

impl View for SnapshotNext {
    type V = SnapshotNextView;

    open spec fn view(&self) -> SnapshotNextView {
        match self {
            SnapshotNext::WarnEsp => SnapshotNextView::WarnEsp,
            SnapshotNext::Choose => SnapshotNextView::Choose,
            SnapshotNext::Take => SnapshotNextView::Take,
            SnapshotNext::Saved { lines } => SnapshotNextView::Saved { lines: shown(lines@) },
            SnapshotNext::Ask { lines } => SnapshotNextView::Ask { lines: shown(lines@) },
            SnapshotNext::Settled(b) => SnapshotNextView::Settled(*b),
        }
    }
}

/// What is said of a boot configuration that was saved.
pub open spec fn boot_saved_lines(w: Written, dests: Seq<Volume>, attached: bool) -> Seq<LineView> {
    seq![styled("  The boot configuration as it is now was saved to:"@, Style::Good)]
        + w.all_lines() + seq![
        blank_line(),
        styled("  Taken automatically before the first change of"@, Style::Dim),
        styled("  this session, so there is a record to go back to."@, Style::Dim),
    ] + hint_lines(dests, attached)
}

/// What is asked where it could not be saved.
pub open spec fn unsaved_question(why: Seq<LineView>) -> Seq<LineView> {
    why + seq![
        blank_line(),
        styled("  Nothing has been changed yet. Continuing means"@, Style::Warn),
        styled("  making the change with no saved copy of what the"@, Style::Warn),
        styled("  boot configuration looks like right now."@, Style::Warn),
        blank_line(),
        styled("  Continue without a saved copy?"@, Style::Key),
    ]
}

/// Why nothing was saved, where nothing was: nowhere would take it is the
/// same situation as not having been able to build it at all.
pub open spec fn unsaved_because(outcome: Result<Written, String>) -> Option<Seq<LineView>> {
    match outcome {
        Ok(w) => if w.ok@.len() > 0 {
            None
        } else {
            Some(w.all_lines())
        },
        Err(e) => Some(seq![styled("  "@ + e@, Style::Bad)]),
    }
}

/// What saving the boot configuration does next.
pub open spec fn snapshot_next(s: SoFar, dests: Seq<Volume>, attached: bool) -> SnapshotNextView {
    if s.taken {
        SnapshotNextView::Settled(true)
    } else if s.esp_lost && s.warned is None {
        SnapshotNextView::WarnEsp
    } else if s.esp_lost && s.warned == Some(false) {
        SnapshotNextView::Settled(false)
    } else if s.chosen is None {
        SnapshotNextView::Choose
    } else if s.chosen == Some(false) {
        SnapshotNextView::Settled(false)
    } else {
        match s.outcome {
            None => SnapshotNextView::Take,
            Some(outcome) => match unsaved_because(outcome) {
                None => SnapshotNextView::Saved {
                    lines: boot_saved_lines(outcome->Ok_0, dests, attached),
                },
                Some(why) => match s.agreed {
                    None => SnapshotNextView::Ask { lines: unsaved_question(why) },
                    Some(b) => SnapshotNextView::Settled(b),
                },
            },
        }
    }
}

fn boot_saved(w: &Written, dests: &[Volume], attached: bool) -> (r: Vec<Line>)
    ensures
        shown(r@) == boot_saved_lines(*w, dests@, attached),
{
    let mut lines = no_lines();
    add_line(&mut lines, good("  The boot configuration as it is now was saved to:"));
    let ghost head = shown(lines@);
    add_lines(&mut lines, w.lines());
    add_line(&mut lines, Line::blank());
    add_line(&mut lines, dim("  Taken automatically before the first change of"));
    add_line(&mut lines, dim("  this session, so there is a record to go back to."));
    add_lines(&mut lines, attach_hint(dests, attached));
    assert(shown(lines@) =~= boot_saved_lines(*w, dests@, attached));
    lines
}

fn ask_without(why: Vec<Line>) -> (r: Vec<Line>)
    ensures
        shown(r@) == unsaved_question(shown(why@)),
{
    let mut lines = why;
    let ghost before = shown(lines@);
    add_line(&mut lines, Line::blank());
    add_line(&mut lines, warn("  Nothing has been changed yet. Continuing means"));
    add_line(&mut lines, warn("  making the change with no saved copy of what the"));
    add_line(&mut lines, warn("  boot configuration looks like right now."));
    add_line(&mut lines, Line::blank());
    add_line(&mut lines, key("  Continue without a saved copy?"));
    assert(shown(lines@) =~= unsaved_question(before));
    lines
}

/// Save the boot configuration before this session's first NVRAM write.
///
/// Mandatory, but not a hard refusal when it fails. On a machine whose ESP
/// has gone unreachable, changing a boot entry may be the only remedy left,
/// and refusing outright would make the tool useless exactly when it is
/// needed. So a failure becomes a question with the consequence spelled out,
/// and the next change tries again.
pub fn ensure_boot_snapshot(s: &SoFar, dests: &[Volume], attached: bool) -> (r: SnapshotNext)
    ensures
        r@ == snapshot_next(*s, dests@, attached),
{
    if s.taken {
        return SnapshotNext::Settled(true);
    }
    if s.esp_lost {
        match s.warned {
            None => return SnapshotNext::WarnEsp,
            Some(false) => return SnapshotNext::Settled(false),
            Some(true) => {},
        }
    }
    match s.chosen {
        None => return SnapshotNext::Choose,
        Some(false) => return SnapshotNext::Settled(false),
        Some(true) => {},
    }
    let outcome = match &s.outcome {
        None => return SnapshotNext::Take,
        Some(outcome) => outcome,
    };
    let why = match outcome {
        Ok(w) => {
            if w.any() {
                return SnapshotNext::Saved { lines: boot_saved(w, dests, attached) };
            }
            w.lines()
        },
        Err(e) => show_error(e.as_str()),
    };
    match s.agreed {
        None => SnapshotNext::Ask { lines: ask_without(why) },
        Some(b) => SnapshotNext::Settled(b),
    }
}

// --------------------------------------------------------- choosing an entry

/// The slots of the order among the first `n` that have an entry.
pub open spec fn present_among(state: BootState, order: Seq<u16>, n: nat) -> Seq<u16>
    decreases n,
{
    if n == 0 {
        Seq::empty()
    } else {
        let rest = present_among(state, order, (n - 1) as nat);
        if state.found(order[n - 1]) is Some {
            rest.push(order[n - 1])
        } else {
            rest
        }
    }
}

/// The slots that can be chosen from: boot order first, then the ones the
/// order misses. The list reads the way the firmware will act, and making
/// one of the others the default is a real repair.
pub open spec fn choosable_slots(state: BootState) -> Seq<u16> {
    present_among(state, state.ordered(), state.ordered().len()) + outside(
        state.entries@,
        state.ordered(),
        state.entries@.len(),
    )
}

/// The slots that can be chosen from.
pub fn boot_slots(state: &BootState) -> (r: Vec<u16>)
    ensures
        r@ == choosable_slots(*state),
{
    let order = state.order_or_none();
    let mut out: Vec<u16> = Vec::new();
    let mut i: usize = 0;
    while i < order.len()
        invariant
            i <= order@.len(),
            order@ == state.ordered(),
            out@ == present_among(*state, order@, i as nat),
        decreases order@.len() - i,
    {
        if state.get(order[i]).is_some() {
            out.push(order[i]);
        }
        i += 1;
    }
    let mut rest = state.orphans();
    out.append(&mut rest);
    out
}

/// The row for one slot.
pub open spec fn slot_row(state: BootState, paths: Seq<String>, slot: u16) -> ItemView {
    let (label, detail) = match state.found(slot) {
        Some(Ok(o)) => (
            summary_text(slot, o.active(), o.description@),
            seq![styled("  "@ + path_in(state, paths, slot), Style::Dim)],
        ),
        _ => (
            slot_text(slot) + "  (cannot be read)"@,
            seq![styled("  This entry will not decode."@, Style::Bad)],
        ),
    };
    item_view(
        label,
        if state.ordered().contains(slot) {
            detail
        } else {
            detail.push(styled("  Not in the boot order."@, Style::Warn))
        },
    )
}

fn slot_item(state: &BootState, paths: &[String], slot: u16) -> (r: Item)
    requires
        paths@.len() == state.entries@.len(),
    ensures
        r@ == slot_row(*state, paths@, slot),
{
    let mut detail = no_lines();
    let mut label = slot_name(slot);
    match place_of(state, slot) {
        Some(k) => match &state.entries[k].1 {
            Ok(o) => {
                label = summary(slot, o);
                let mut s = "  ".to_owned();
                s.push_str(paths[k].as_str());
                add_line(&mut detail, dim(s));
            },
            Err(_) => {
                label.push_str("  (cannot be read)");
                add_line(&mut detail, bad("  This entry will not decode."));
            },
        },
        None => {
            label.push_str("  (cannot be read)");
            add_line(&mut detail, bad("  This entry will not decode."));
        },
    }
    if !holds_slot(state.order_or_none(), slot) {
        add_line(&mut detail, warn("  Not in the boot order."));
    }
    assert(shown(detail@) =~= slot_row(*state, paths@, slot).detail);
    Item::with_detail(label, detail)
}

/// The rows for these slots.
pub open spec fn slot_rows(state: BootState, paths: Seq<String>, slots: Seq<u16>) -> Seq<ItemView> {
    Seq::new(slots.len(), |i: int| slot_row(state, paths, slots[i]))
}

/// The entries in NVRAM as rows to choose from. With none there is nothing
/// to choose.
pub fn pick_boot_entry(state: &BootState, paths: &[String], slots: &[u16]) -> (r: Option<Vec<Item>>)
    requires
        paths@.len() == state.entries@.len(),
    ensures
        match r {
            Some(items) => slots@.len() > 0 && items_of(items@) == slot_rows(
                *state,
                paths@,
                slots@,
            ),
            None => slots@.len() == 0,
        },
{
    if slots.len() == 0 {
        return None;
    }
    let mut out = no_items();
    let mut i: usize = 0;
    assert(items_of(out@) =~= slot_rows(*state, paths@, slots@.take(0)));
    while i < slots.len()
        invariant
            i <= slots@.len(),
            paths@.len() == state.entries@.len(),
            items_of(out@) == slot_rows(*state, paths@, slots@.take(i as int)),
        decreases slots@.len() - i,
    {
        let ghost before = slot_rows(*state, paths@, slots@.take(i as int));
        add_item(&mut out, slot_item(state, paths, slots[i]));
        i += 1;
        assert(slot_rows(*state, paths@, slots@.take(i as int)) =~= before.push(
            slot_row(*state, paths@, slots@[i - 1]),
        ));
    }
    assert(slots@.take(i as int) =~= slots@);
    Some(out)
}

/// What is said where there is nothing to choose.
pub fn no_boot_entries() -> (r: Vec<Line>)
    ensures
        shown(r@) == seq![styled("  There are no boot entries in NVRAM."@, Style::Warn)],
{
    let mut out = no_lines();
    add_line(&mut out, warn("  There are no boot entries in NVRAM."));
    out
}

// -------------------------------------------------------------- the changes

/// What was made of a choice.
pub enum Prepared {
    /// A change to take through [`authorise_and_write`].
    Change(Change),
    /// There is nothing to change, and this is why.
    Refused { title: String, lines: Vec<Line> },
}

/// [`Prepared`] as a value.
pub enum PreparedView {
    Change(ChangeView),
    Refused { title: Seq<char>, lines: Seq<LineView> },
}

impl View for Prepared {
    type V = PreparedView;

    open spec fn view(&self) -> PreparedView {
        match self {
            Prepared::Change(c) => PreparedView::Change(c@),
            Prepared::Refused { title, lines } => PreparedView::Refused {
                title: title@,
                lines: shown(lines@),
            },
        }
    }
}

/// A failure, in one line.
pub open spec fn failed_with(title: Seq<char>, message: Seq<char>) -> PreparedView {
    PreparedView::Refused { title, lines: seq![styled("  "@ + message, Style::Bad)] }
}

/// Not a failure, in one line.
pub open spec fn noted(title: Seq<char>, message: Seq<char>) -> PreparedView {
    PreparedView::Refused { title, lines: seq![styled("  "@ + message, Style::Warn)] }
}

/// What stands above the entries one of which becomes the default.
pub open spec fn default_intro_lines() -> Seq<LineView> {
    seq![
        styled("  The firmware tries the boot order from the top."@, Style::Dim),
        styled("  The one you choose is moved to the front."@, Style::Dim),
    ]
}

/// What stands above the entries one of which becomes the default.
pub fn default_intro() -> (r: Vec<Line>)
    ensures
        shown(r@) == default_intro_lines(),
{
    let mut out = no_lines();
    add_line(&mut out, dim("  The firmware tries the boot order from the top."));
    add_line(&mut out, dim("  The one you choose is moved to the front."));
    out
}

/// The order as it will be, each slot by what stands in it.
pub open spec fn order_review(state: BootState, before: Seq<u16>, after: Seq<u16>) -> Seq<LineView> {
    seq![styled("  Boot order after:"@, Style::Title)] + Seq::new(
        after.len(),
        |i: int| order_row(before, after, i, slot_title(state, after[i])),
    )
}

fn render_change(state: &BootState, before: &[u16], after: &[u16]) -> (r: Vec<Line>)
    ensures
        shown(r@) == order_review(*state, before@, after@),
{
    let name = |s: u16| -> (text: String)
        ensures
            text@ == slot_title(*state, s),
        { slot_with_name(state, s) };
    let out = render_order_change(before, after, name);
    proof {
        let want = order_review(*state, before@, after@);
        assert(shown(out@).len() == want.len());
        assert forall|j: int| 0 <= j < want.len() implies shown(out@)[j] == want[j] by {
            if j > 0 {
                let i = j - 1;
                assert(row_by(name, before@, after@, i, out@[i + 1]@));
                let text = choose|text: String|
                    call_ensures(name, (after@[i],), text) && out@[i + 1]@ == #[trigger] order_row(
                        before@,
                        after@,
                        i,
                        text@,
                    );
                assert(text@ == slot_title(*state, after@[i]));
            }
        }
        assert(shown(out@) =~= want);
    }
    out
}

/// Moving this entry to the front of the order.
pub open spec fn default_change(state: BootState, order: Seq<u16>, slot: u16) -> ChangeView {
    ChangeView {
        title: "Set the default"@,
        review: order_review(state, order, slot_first(slot, order)),
        warning: seq![
            styled("  "@ + slot_title(state, slot), Style::Key),
            blank_line(),
            styled("  This becomes what the machine boots by default."@, Style::Warn),
            styled("  Only the order is changed; no entry is rewritten."@, Style::Normal),
            styled("  To try it once without committing, use \"Boot"@, Style::Normal),
            styled("  something once\" instead."@, Style::Normal),
        ],
        writes: seq![
            VarWriteView { name: "BootOrder"@, data: unit_bytes(slot_first(slot, order)) },
        ],
    }
}

/// Move an entry to the front of the boot order. Without a choice there is
/// nothing yet to prepare, unless the order could not be read.
pub fn run_boot_default(state: &BootState, chosen: Option<u16>) -> (r: Option<Prepared>)
    ensures
        match (state.order, chosen) {
            (Err(e), _) => r matches Some(p) && p@ == failed_with(
                "Set the default"@,
                "BootOrder cannot be read - "@ + e@,
            ),
            (Ok(_), None) => r is None,
            (Ok(order), Some(slot)) => r matches Some(p) && p@ == (if order@.len() > 0 && order@[0]
                == slot {
                noted(
                    "Set the default"@,
                    slot_text(slot) + " is already first in the boot order."@,
                )
            } else {
                PreparedView::Change(default_change(*state, order@, slot))
            }),
        },
{
    let order = match &state.order {
        Ok(order) => order.as_slice(),
        Err(e) => {
            let mut s = "BootOrder cannot be read - ".to_owned();
            s.push_str(e.as_str());
            return Some(
                Prepared::Refused {
                    title: "Set the default".to_owned(),
                    lines: show_error(s.as_str()),
                },
            );
        },
    };
    let slot: u16 = match chosen {
        Some(slot) => slot,
        None => return None,
    };
    if order.len() > 0 && order[0] == slot {
        let mut s = slot_name(slot);
        s.push_str(" is already first in the boot order.");
        return Some(
            Prepared::Refused { title: "Set the default".to_owned(), lines: show_note(s.as_str()) },
        );
    }
    let after = reorder(slot, order);
    let review = render_change(state, order, after.as_slice());
    let mut warning = no_lines();
    let mut s = "  ".to_owned();
    s.push_str(slot_with_name(state, slot).as_str());
    add_line(&mut warning, key(s));
    add_line(&mut warning, Line::blank());
    add_line(&mut warning, warn("  This becomes what the machine boots by default."));
    add_line(&mut warning, line("  Only the order is changed; no entry is rewritten."));
    add_line(&mut warning, line("  To try it once without committing, use \"Boot"));
    add_line(&mut warning, line("  something once\" instead."));
    let c = Change {
        title: "Set the default".to_owned(),
        review,
        warning,
        writes: plan_set_default(slot, order),
    };
    assert(c@.warning =~= default_change(*state, order@, slot).warning);
    assert(c@.writes =~= default_change(*state, order@, slot).writes);
    Some(Prepared::Change(c))
}

/// What stands above the entries one of which is booted once.
pub open spec fn once_intro_lines() -> Seq<LineView> {
    seq![
        styled("  The next boot only. The firmware clears this as it"@, Style::Dim),
        styled("  uses it, so the boot after that is normal again."@, Style::Dim),
    ]
}

/// What stands above the entries one of which is booted once.
pub fn once_intro() -> (r: Vec<Line>)
    ensures
        shown(r@) == once_intro_lines(),
{
    let mut out = no_lines();
    add_line(&mut out, dim("  The next boot only. The firmware clears this as it"));
    add_line(&mut out, dim("  uses it, so the boot after that is normal again."));
    out
}

/// What an entry booted once is called.
pub open spec fn once_label(state: BootState, slot: u16) -> Seq<char> {
    match state.found(slot) {
        Some(Ok(o)) => slot_text(slot) + "  "@ + o.description@,
        _ => slot_text(slot),
    }
}

/// Booting this entry once.
pub open spec fn once_change(state: BootState, slot: u16) -> ChangeView {
    ChangeView {
        title: "Boot something once"@,
        review: seq![
            styled("  "@ + once_label(state, slot), Style::Key),
            blank_line(),
            styled("  The next boot will use this entry. Nothing else"@, Style::Normal),
            styled("  changes, and the firmware removes the override as"@, Style::Normal),
            styled("  soon as it has used it."@, Style::Normal),
            blank_line(),
            styled("  This is the safe way to test an entry: if it does"@, Style::Good),
            styled("  not work, the boot after it is the old default."@, Style::Good),
        ],
        warning: seq![
            styled("  "@ + once_label(state, slot), Style::Key),
            blank_line(),
            styled("  This sets the next boot only. It reverts itself."@, Style::Warn),
        ],
        writes: seq![VarWriteView { name: "BootNext"@, data: bytes16(slot) }],
    }
}

/// Set `BootNext`: one boot, then back to normal.
pub fn run_boot_once(state: &BootState, slot: u16) -> (r: Change)
    ensures
        r@ == once_change(*state, slot),
{
    let mut label = "  ".to_owned();
    let mut name = slot_name(slot);
    if let Some(Ok(o)) = state.get(slot) {
        name.push_str("  ");
        name.push_str(o.description.as_str());
    }
    label.push_str(name.as_str());
    let mut review = no_lines();
    add_line(&mut review, key(label.clone()));
    add_line(&mut review, Line::blank());
    add_line(&mut review, line("  The next boot will use this entry. Nothing else"));
    add_line(&mut review, line("  changes, and the firmware removes the override as"));
    add_line(&mut review, line("  soon as it has used it."));
    add_line(&mut review, Line::blank());
    add_line(&mut review, good("  This is the safe way to test an entry: if it does"));
    add_line(&mut review, good("  not work, the boot after it is the old default."));
    let mut warning = no_lines();
    add_line(&mut warning, key(label));
    add_line(&mut warning, Line::blank());
    add_line(&mut warning, warn("  This sets the next boot only. It reverts itself."));
    let c = Change {
        title: "Boot something once".to_owned(),
        review,
        warning,
        writes: plan_boot_next(slot),
    };
    let ghost want = once_change(*state, slot);
    assert(c@.review =~= want.review);
    assert(c@.warning =~= want.warning);
    assert(c@.writes =~= want.writes);
    c
}

// --------------------------------------------------------------- registering

/// Where the loaders nothing points at stand among the first `n`.
pub open spec fn unregistered(candidates: Seq<Candidate>, n: nat) -> Seq<usize>
    decreases n,
{
    if n == 0 {
        Seq::empty()
    } else {
        let rest = unregistered(candidates, (n - 1) as nat);
        if candidates[n - 1].registered is None {
            rest.push((n - 1) as usize)
        } else {
            rest
        }
    }
}

/// The loaders nothing in NVRAM points at.
pub fn new_loaders(scan: &EspScan) -> (r: Vec<usize>)
    ensures
        r@ == unregistered(scan.candidates@, scan.candidates@.len()),
        forall|i: int| 0 <= i < r@.len() ==> (#[trigger] r@[i]) < scan.candidates@.len(),
{
    let mut out: Vec<usize> = Vec::new();
    let mut i: usize = 0;
    assert(scan.candidates.len() == scan.candidates@.len());
    while i < scan.candidates.len()
        invariant
            i <= scan.candidates@.len(),
            scan.candidates@.len() <= usize::MAX,
            out@ == unregistered(scan.candidates@, i as nat),
            forall|j: int| 0 <= j < out@.len() ==> (#[trigger] out@[j]) < i,
        decreases scan.candidates@.len() - i,
    {
        if scan.candidates[i].registered.is_none() {
            out.push(i);
        }
        i += 1;
    }
    out
}

/// What is said where every loader has an entry.
pub open spec fn all_registered_lines() -> Seq<LineView> {
    seq![
        styled("  Every loader found on the ESPs already has a boot"@, Style::Good),
        styled("  entry pointing at it."@, Style::Good),
        blank_line(),
        styled("  \"Scan the ESPs\" lists them and says which is which."@, Style::Dim),
    ]
}

/// What is said where every loader has an entry.
pub fn all_registered() -> (r: Vec<Line>)
    ensures
        shown(r@) == all_registered_lines(),
{
    let mut out = no_lines();
    add_line(&mut out, good("  Every loader found on the ESPs already has a boot"));
    add_line(&mut out, good("  entry pointing at it."));
    add_line(&mut out, Line::blank());
    add_line(&mut out, dim("  \"Scan the ESPs\" lists them and says which is which."));
    out
}

/// What stands above the loaders.
pub open spec fn register_intro_lines() -> Seq<LineView> {
    seq![
        styled("  Loaders on the ESPs that nothing in NVRAM points at."@, Style::Dim),
        styled("  Registering one adds a boot entry for it."@, Style::Dim),
    ]
}

/// What stands above the loaders.
pub fn register_intro() -> (r: Vec<Line>)
    ensures
        shown(r@) == register_intro_lines(),
{
    let mut out = no_lines();
    add_line(&mut out, dim("  Loaders on the ESPs that nothing in NVRAM points at."));
    add_line(&mut out, dim("  Registering one adds a boot entry for it."));
    out
}

/// The row for one loader.
pub open spec fn loader_row(c: Candidate, esps: int) -> ItemView {
    item_view(
        c.kind@ + "  "@ + c.file@,
        seq![
            styled("  on ESP "@ + dec((c.esp + 1) as nat) + ", "@ + human(c.size), Style::Dim),
            styled("  will be called \""@ + suggestion(c, esps) + "\""@, Style::Dim),
        ],
    )
}

/// The rows for the loaders at these places.
pub open spec fn loader_rows(scan: EspScan, list: Seq<usize>) -> Seq<ItemView> {
    Seq::new(
        list.len(),
        |i: int| loader_row(scan.candidates@[list[i] as int], scan.volumes@.len() as int),
    )
}

fn loader_item(c: &Candidate, esps: usize) -> (r: Item)
    ensures
        r@ == loader_row(*c, esps as int),
{
    let mut label = c.kind.clone();
    label.push_str("  ");
    label.push_str(c.file.as_str());
    let mut detail = no_lines();
    let mut s = "  on ESP ".to_owned();
    s.push_str(succ_text(c.esp as u64).as_str());
    s.push_str(", ");
    s.push_str(human_size(c.size).as_str());
    add_line(&mut detail, dim(s));
    let mut s = "  will be called \"".to_owned();
    s.push_str(suggested_description(c, esps).as_str());
    s.push_str("\"");
    add_line(&mut detail, dim(s));
    assert(shown(detail@) =~= loader_row(*c, esps as int).detail);
    Item::with_detail(label, detail)
}

/// The loaders as rows to choose from.
pub fn loader_items(scan: &EspScan, list: &[usize]) -> (r: Vec<Item>)
    requires
        forall|i: int| 0 <= i < list@.len() ==> (#[trigger] list@[i]) < scan.candidates@.len(),
    ensures
        items_of(r@) == loader_rows(*scan, list@),
{
    let mut out = no_items();
    let mut i: usize = 0;
    assert(items_of(out@) =~= loader_rows(*scan, list@.take(0)));
    while i < list.len()
        invariant
            i <= list@.len(),
            forall|i: int| 0 <= i < list@.len() ==> (#[trigger] list@[i]) < scan.candidates@.len(),
            items_of(out@) == loader_rows(*scan, list@.take(i as int)),
        decreases list@.len() - i,
    {
        let ghost before = loader_rows(*scan, list@.take(i as int));
        add_item(&mut out, loader_item(&scan.candidates[list[i]], scan.volumes.len()));
        i += 1;
        assert(loader_rows(*scan, list@.take(i as int)) =~= before.push(
            loader_row(scan.candidates@[list@[i - 1] as int], scan.volumes@.len() as int),
        ));
    }
    assert(list@.take(i as int) =~= list@);
    out
}

/// Where in the order: the first row is the front, the other the end.
pub open spec fn placement_rows() -> Seq<ItemView> {
    seq![
        item_view(
            "Add it, and make it the default"@,
            seq![styled("  Goes to the front of the boot order."@, Style::Dim)],
        ),
        item_view(
            "Add it at the end of the boot order"@,
            seq![
                styled("  Tried only if everything before it fails."@, Style::Dim),
                styled("  The safer choice if you are unsure."@, Style::Dim),
            ],
        ),
    ]
}

/// Where in the order.
pub fn placement_items() -> (r: Vec<Item>)
    ensures
        items_of(r@) == placement_rows(),
{
    let mut front = no_lines();
    add_line(&mut front, dim("  Goes to the front of the boot order."));
    assert(shown(front@) =~= placement_rows()[0].detail);
    let mut end = no_lines();
    add_line(&mut end, dim("  Tried only if everything before it fails."));
    add_line(&mut end, dim("  The safer choice if you are unsure."));
    assert(shown(end@) =~= placement_rows()[1].detail);
    let mut out = no_items();
    add_item(&mut out, Item::with_detail("Add it, and make it the default".to_owned(), front));
    add_item(&mut out, Item::with_detail("Add it at the end of the boot order".to_owned(), end));
    assert(items_of(out@) =~= placement_rows());
    out
}

/// What registering a loader does next.
pub enum RegisterNext {
    /// Every loader has an entry: say so, and it is over.
    Nothing { lines: Vec<Line> },
    /// Choose a loader.
    Choose { intro: Vec<Line>, items: Vec<Item> },
    /// Choose where in the boot order.
    Place { items: Vec<Item> },
    /// Register this loader, see [`run_boot_register`].
    Ready { candidate: usize, first: bool },
    /// The operator backed out.
    Done,
}

/// [`RegisterNext`] as a value.
pub enum RegisterNextView {
    Nothing { lines: Seq<LineView> },
    Choose { intro: Seq<LineView>, items: Seq<ItemView> },
    Place { items: Seq<ItemView> },
    Ready { candidate: usize, first: bool },
    Done,
}

impl View for RegisterNext {
    type V = RegisterNextView;

    open spec fn view(&self) -> RegisterNextView {
        match self {
            RegisterNext::Nothing { lines } => RegisterNextView::Nothing { lines: shown(lines@) },
            RegisterNext::Choose { intro, items } => RegisterNextView::Choose {
                intro: shown(intro@),
                items: items_of(items@),
            },
            RegisterNext::Place { items } => RegisterNextView::Place { items: items_of(items@) },
            RegisterNext::Ready { candidate, first } => RegisterNextView::Ready {
                candidate: *candidate,
                first: *first,
            },
            RegisterNext::Done => RegisterNextView::Done,
        }
    }
}

/// What registering a loader does after these rows were chosen, `None`
/// standing for an operator who backed out.
pub open spec fn register_next(
    scan: EspScan,
    loader: Option<Option<usize>>,
    place: Option<Option<usize>>,
) -> RegisterNextView {
    let new = unregistered(scan.candidates@, scan.candidates@.len());
    if new.len() == 0 {
        RegisterNextView::Nothing { lines: all_registered_lines() }
    } else {
        match (loader, place) {
            (None, _) => RegisterNextView::Choose {
                intro: register_intro_lines(),
                items: loader_rows(scan, new),
            },
            (Some(None), _) => RegisterNextView::Done,
            (Some(Some(_)), None) => RegisterNextView::Place { items: placement_rows() },
            (Some(Some(_)), Some(None)) => RegisterNextView::Done,
            (Some(Some(i)), Some(Some(row))) => RegisterNextView::Ready {
                candidate: new[i as int],
                first: row == 0,
            },
        }
    }
}

/// Choose a loader to register, and where it goes.
pub fn choose_loader(
    scan: &EspScan,
    loader: Option<Option<usize>>,
    place: Option<Option<usize>>,
) -> (r: RegisterNext)
    requires
        loader matches Some(Some(i)) ==> i < unregistered(
            scan.candidates@,
            scan.candidates@.len(),
        ).len(),
    ensures
        r@ == register_next(*scan, loader, place),
        r matches RegisterNext::Ready { candidate, .. } ==> candidate < scan.candidates@.len(),
{
    let new = new_loaders(scan);
    if new.len() == 0 {
        return RegisterNext::Nothing { lines: all_registered() };
    }
    let i: usize = match loader {
        None => return RegisterNext::Choose {
            intro: register_intro(),
            items: loader_items(scan, new.as_slice()),
        },
        Some(None) => return RegisterNext::Done,
        Some(Some(i)) => i,
    };
    match place {
        None => RegisterNext::Place { items: placement_items() },
        Some(None) => RegisterNext::Done,
        Some(Some(row)) => RegisterNext::Ready { candidate: new[i], first: row == 0 },
    }
}

/// The slots of these entries.
pub open spec fn slots_taken(entries: Seq<(u16, Result<LoadOption, String>)>) -> Seq<u16> {
    Seq::new(entries.len(), |i: int| entries[i].0)
}

/// The entry a loader is registered as.
pub open spec fn new_entry(c: Candidate, esps: int, device_path: Seq<u8>) -> LoadOptionView {
    LoadOptionView {
        attributes: LOAD_OPTION_ACTIVE,
        description: suggestion(c, esps),
        device_path,
        optional_data: Seq::empty(),
    }
}

/// Registering a loader in this slot.
pub open spec fn register_change(
    state: BootState,
    slot: u16,
    o: LoadOptionView,
    path: Seq<char>,
    first: bool,
    cols: usize,
) -> ChangeView {
    ChangeView {
        title: "Register a bootloader"@,
        review: seq![
            styled("  "@ + slot_text(slot) + "  as  "@ + o.description, Style::Key),
            blank_line(),
        ] + wrapped_lines(
            "  "@ + path,
            writable_width(cols as int) as nat,
            Style::Dim,
            "    "@,
        ),
        warning: seq![
            styled("  "@ + slot_text(slot) + "  "@ + o.description, Style::Key),
            blank_line(),
            styled("  This adds a boot entry to the firmware's NVRAM."@, Style::Warn),
            styled("  No disk is written to, and the entry can be removed"@, Style::Normal),
            styled("  from the firmware's own boot menu afterwards."@, Style::Normal),
        ],
        writes: register_writes(slot, o, state.ordered(), first),
    }
}

fn slots_of(state: &BootState) -> (r: Vec<u16>)
    ensures
        r@ == slots_taken(state.entries@),
{
    let mut out: Vec<u16> = Vec::new();
    let mut i: usize = 0;
    while i < state.entries.len()
        invariant
            i <= state.entries@.len(),
            out@.len() == i,
            forall|j: int| 0 <= j < i ==> #[trigger] out@[j] == state.entries@[j].0,
        decreases state.entries@.len() - i,
    {
        out.push(state.entries[i].0);
        i += 1;
    }
    out
}

/// Put a loader found on an ESP into NVRAM.
///
/// `device_path` is what the firmware made of the file, or why it could not,
/// and `path` is that in words.
pub fn run_boot_register(
    state: &BootState,
    c: &Candidate,
    esps: usize,
    device_path: Result<Vec<u8>, String>,
    path: &str,
    first: bool,
    cols: usize,
) -> (r: Prepared)
    ensures
        match device_path {
            Err(e) => r@ == failed_with("Register a bootloader"@, e@),
            Ok(bytes) => match r {
                Prepared::Change(change) => exists|slot: u16|
                    #![trigger slots_taken(state.entries@).contains(slot)]
                    !slots_taken(state.entries@).contains(slot) && (forall|s: u16|
                        s < slot ==> slots_taken(state.entries@).contains(s)) && change@
                        == register_change(
                        *state,
                        slot,
                        new_entry(*c, esps as int, bytes@),
                        path@,
                        first,
                        cols,
                    ),
                Prepared::Refused { .. } => {
                    &&& forall|s: u16| slots_taken(state.entries@).contains(s)
                    &&& r@ == failed_with(
                        "Register a bootloader"@,
                        "every boot slot from Boot0000 to BootFFFF is taken"@,
                    )
                },
            },
        },
{
    let bytes = match device_path {
        Ok(bytes) => bytes,
        Err(e) => return Prepared::Refused {
            title: "Register a bootloader".to_owned(),
            lines: show_error(e.as_str()),
        },
    };
    let taken = slots_of(state);
    let slot: u16 = match next_free_slot(taken.as_slice()) {
        Some(slot) => slot,
        None => return Prepared::Refused {
            title: "Register a bootloader".to_owned(),
            lines: show_error("every boot slot from Boot0000 to BootFFFF is taken"),
        },
    };
    let opt = LoadOption {
        attributes: LOAD_OPTION_ACTIVE,
        description: suggested_description(c, esps),
        device_path: bytes,
        optional_data: Vec::new(),
    };
    assert(opt@.optional_data =~= Seq::<u8>::empty());
    assert(opt@ == new_entry(*c, esps as int, bytes@));
    let writes = plan_register(slot, &opt, state.order_or_none(), first);
    let mut review = no_lines();
    let mut s = "  ".to_owned();
    s.push_str(slot_name(slot).as_str());
    s.push_str("  as  ");
    s.push_str(opt.description.as_str());
    add_line(&mut review, key(s));
    add_line(&mut review, Line::blank());
    let ghost head = shown(review@);
    let mut s = "  ".to_owned();
    s.push_str(path);
    add_lines(&mut review, wrapped(s.as_str(), Style::Dim, "    ", cols));
    let mut warning = no_lines();
    let mut s = "  ".to_owned();
    s.push_str(slot_name(slot).as_str());
    s.push_str("  ");
    s.push_str(opt.description.as_str());
    add_line(&mut warning, key(s));
    add_line(&mut warning, Line::blank());
    add_line(&mut warning, warn("  This adds a boot entry to the firmware's NVRAM."));
    add_line(&mut warning, line("  No disk is written to, and the entry can be removed"));
    add_line(&mut warning, line("  from the firmware's own boot menu afterwards."));
    let change = Change { title: "Register a bootloader".to_owned(), review, warning, writes };
    let ghost want = register_change(*state, slot, opt@, path@, first, cols);
    assert(change@.review =~= want.review);
    assert(change@.warning =~= want.warning);
    assert(change@ == want);
    Prepared::Change(change)
}

// --------------------------------------------------------------------- laws

/// NVRAM is only written once the operator went on from the review, the boot
/// configuration was saved or they agreed to do without, and they entered
/// the confirmation sequence last.
pub proof fn nothing_is_applied_unasked(c: ChangeView, answers: Seq<bool>)
    ensures
        change_next(c, answers) is Apply ==> answers.len() >= 3 && answers[0] && answers[1]
            && answers[2],
        change_next(c, answers.take(0)) is Page,
        answers.len() >= 1 && answers[0] ==> change_next(c, answers.take(1)) is Snapshot,
        answers.len() >= 2 && answers[0] && answers[1] ==> change_next(c, answers.take(2)) is Gate,
{
}

/// A change goes on without a copy of the boot configuration only where the
/// operator was asked and agreed.
pub proof fn going_on_means_a_copy_or_consent(s: SoFar, dests: Seq<Volume>, attached: bool)
    ensures
        snapshot_next(s, dests, attached) == SnapshotNextView::Settled(true) ==> s.taken
            || s.agreed == Some(true),
{
}

/// A registered loader is one the firmware boots: the first write is an entry
/// under the slot's own name, active and not hidden, with exactly the device
/// path handed in and nothing behind it, called what was suggested; the second
/// puts that slot at the front of the order, or at its end, and leaves the
/// others as they were. There is no third.
pub proof fn a_registered_loader_is_booted(
    state: BootState,
    slot: u16,
    c: Candidate,
    esps: int,
    device_path: Seq<u8>,
    path: Seq<char>,
    first: bool,
    cols: usize,
    others: spec_fn(u16) -> bool,
)
    requires
        device_path.len() <= u16::MAX,
        !suggestion(c, esps).contains('\0'),
        forall|s: u16| #[trigger] others(s) == (s != slot),
    ensures
        ({
            let o = new_entry(c, esps, device_path);
            let w = register_change(state, slot, o, path, first, cols).writes;
            let order = match state.order {
                Ok(order) => order@,
                Err(_) => Seq::<u16>::empty(),
            };
            &&& w.len() == 2
            &&& slot_of_text(w[0].name) == Some(slot)
            &&& le32(w[0].data, 0) == 1
            &&& option_says(w[0].data) matches Ok(read) && {
                &&& read.attributes & 1 == 1
                &&& read.attributes & 8 == 0
                &&& read.attributes & 0x1f00 == 0
                &&& read.device_path == device_path
                &&& read.optional_data.len() == 0
                &&& read.description == suggestion(c, esps)
            }
            &&& w[1].name == "BootOrder"@
            &&& order_says(w[1].data) == Ok::<Seq<u16>, DecodeError>(
                if first {
                    seq![slot] + order.filter(others)
                } else {
                    order.filter(others) + seq![slot]
                },
            )
        }),
{
    let o = new_entry(c, esps, device_path);
    an_entry_is_laid_out_for_the_firmware(o);
    written_entry_reads_back(o);
    registering_adds_one_slot_to_the_order(slot, o, state.ordered(), first, others);
    assert(1u32 & 1 == 1 && 1u32 & 8 == 0 && 1u32 & 0x1f00 == 0) by (bit_vector);
}

/// Making an entry the default changes the order alone: that entry comes
/// first, and all the others follow as they did.
pub proof fn the_default_comes_first(
    state: BootState,
    order: Seq<u16>,
    slot: u16,
    others: spec_fn(u16) -> bool,
)
    requires
        forall|s: u16| #[trigger] others(s) == (s != slot),
    ensures
        ({
            let w = default_change(state, order, slot).writes;
            &&& w.len() == 1
            &&& w[0].name == "BootOrder"@
            &&& order_says(w[0].data) == Ok::<Seq<u16>, DecodeError>(
                seq![slot] + order.filter(others),
            )
        }),
{
    moving_a_slot_leaves_the_others_in_order(slot, order, others);
    written_order_reads_back(slot_first(slot, order));
}

/// Booting an entry once sets `BootNext` to its slot and touches neither the
/// order nor any entry.
pub proof fn booting_once_leaves_the_order_alone(state: BootState, slot: u16)
    ensures
        ({
            let w = once_change(state, slot).writes;
            &&& w.len() == 1
            &&& w[0].name == "BootNext"@
            &&& w[0].data.len() == 2
            &&& le16(w[0].data, 0) == slot
        }),
{
    let data = once_change(state, slot).writes[0].data;
    assert(data.subrange(0, 2) =~= bytes16(slot));
    le16_reads_bytes16(data, 0, slot);
}

proof fn unregistered_holds(candidates: Seq<Candidate>, n: nat, i: usize)
    requires
        n <= candidates.len() <= usize::MAX,
    ensures
        unregistered(candidates, n).contains(i) <==> i < n && candidates[i as int].registered is None,
        forall|j: int, k: int|
            0 <= j < k < unregistered(candidates, n).len() ==> #[trigger] unregistered(
                candidates,
                n,
            )[j] < #[trigger] unregistered(candidates, n)[k],
        forall|j: int|
            0 <= j < unregistered(candidates, n).len() ==> #[trigger] unregistered(candidates, n)[j]
                < n,
    decreases n,
{
    if n > 0 {
        unregistered_holds(candidates, (n - 1) as nat, i);
        let rest = unregistered(candidates, (n - 1) as nat);
        let all = unregistered(candidates, n);
        if rest.contains(i) {
            let j = choose|j: int| 0 <= j < rest.len() && rest[j] == i;
            assert(all[j] == i);
        }
        if i == n - 1 && candidates[n - 1].registered is None {
            assert(all[rest.len() as int] == i);
        }
        if all.contains(i) && !rest.contains(i) {
            let j = choose|j: int| 0 <= j < all.len() && all[j] == i;
            if j < rest.len() {
                assert(rest[j] == i);
            }
        }
    }
}

/// The loaders offered are exactly those nothing points at, in the order they
/// were found, a row each; where there is none nothing is offered.
pub proof fn the_loaders_offered_have_no_entry(scan: EspScan, i: usize)
    requires
        scan.candidates@.len() <= usize::MAX,
    ensures
        ({
            let new = unregistered(scan.candidates@, scan.candidates@.len());
            &&& new.contains(i) <==> i < scan.candidates@.len()
                && scan.candidates@[i as int].registered is None
            &&& forall|j: int, k: int| 0 <= j < k < new.len() ==> #[trigger] new[j] < #[trigger] new[k]
            &&& register_next(scan, None, None) is Nothing <==> forall|j: int|
                0 <= j < scan.candidates@.len() ==> (
                #[trigger] scan.candidates@[j]).registered is Some
            &&& register_next(scan, None, None) matches RegisterNextView::Choose { items, .. }
                ==> items.len() == new.len()
        }),
{
    let c = scan.candidates@;
    let new = unregistered(c, c.len());
    unregistered_holds(c, c.len(), i);
    if new.len() == 0 {
        assert forall|j: int| 0 <= j < c.len() implies (#[trigger] c[j]).registered is Some by {
            unregistered_holds(c, c.len(), j as usize);
        }
    } else {
        unregistered_holds(c, c.len(), new[0]);
        assert(new.contains(new[0]));
        assert(c[new[0] as int].registered is None);
    }
}

/// The loader registered is the one on the row that was chosen, it has no
/// entry yet, and it goes to the front only where the first place was chosen.
pub proof fn the_loader_chosen_is_registered(scan: EspScan, row: usize, place: usize)
    requires
        scan.candidates@.len() <= usize::MAX,
        row < unregistered(scan.candidates@, scan.candidates@.len()).len(),
    ensures
        register_next(scan, Some(Some(row)), Some(Some(place)))
            matches RegisterNextView::Ready { candidate, first } && {
            &&& candidate == unregistered(scan.candidates@, scan.candidates@.len())[row as int]
            &&& candidate < scan.candidates@.len()
            &&& scan.candidates@[candidate as int].registered is None
            &&& first == (place == 0)
        },
        register_next(scan, Some(None), Some(Some(place))) is Done,
        register_next(scan, Some(Some(row)), Some(None)) is Done,
        register_next(scan, Some(Some(row)), None) is Place,
{
    let new = unregistered(scan.candidates@, scan.candidates@.len());
    unregistered_holds(scan.candidates@, scan.candidates@.len(), new[row as int]);
    assert(new.contains(new[row as int]));
}

proof fn present_are_ordered(state: BootState, order: Seq<u16>, n: nat, slot: u16)
    requires
        n <= order.len(),
    ensures
        present_among(state, order, n).contains(slot) <==> state.found(slot) is Some && order.take(
            n as int,
        ).contains(slot),
    decreases n,
{
    let part = order.take(n as int);
    if n > 0 {
        present_are_ordered(state, order, (n - 1) as nat, slot);
        let rest = present_among(state, order, (n - 1) as nat);
        let all = present_among(state, order, n);
        let before = order.take(n - 1);
        if before.contains(slot) {
            let i = choose|i: int| 0 <= i < before.len() && before[i] == slot;
            assert(part[i] == slot);
        }
        if part.contains(slot) && order[n - 1] != slot {
            let i = choose|i: int| 0 <= i < part.len() && part[i] == slot;
            assert(before[i] == slot);
        }
        if order[n - 1] == slot {
            assert(part[n - 1] == slot);
        }
        if rest.contains(slot) {
            let i = choose|i: int| 0 <= i < rest.len() && rest[i] == slot;
            assert(all[i] == slot);
        }
        if order[n - 1] == slot && state.found(slot) is Some {
            assert(all[rest.len() as int] == slot);
        }
        if all.contains(slot) && !rest.contains(slot) {
            let i = choose|i: int| 0 <= i < all.len() && all[i] == slot;
            if i < rest.len() {
                assert(rest[i] == slot);
            }
        }
    }
}

/// Every entry in the store can be chosen, in the order or not, and nothing
/// that is not there can be.
pub proof fn every_entry_can_be_chosen(state: BootState, slot: u16)
    ensures
        choosable_slots(state).contains(slot) <==> exists|i: int|
            0 <= i < state.entries@.len() && (#[trigger] state.entries@[i]).0 == slot,
{
    let order = state.ordered();
    let a = present_among(state, order, order.len());
    let b = outside(state.entries@, order, state.entries@.len());
    let all = choosable_slots(state);
    assert(order.take(order.len() as int) =~= order);
    present_are_ordered(state, order, order.len(), slot);
    orphans_are_what_the_order_misses(state.entries@, order, state.entries@.len(), slot);
    found_means_listed(state, slot, 0);
    if a.contains(slot) {
        let i = choose|i: int| 0 <= i < a.len() && a[i] == slot;
        assert(all[i] == slot);
    }
    if b.contains(slot) {
        let i = choose|i: int| 0 <= i < b.len() && b[i] == slot;
        assert(all[a.len() + i] == slot);
    }
    if all.contains(slot) {
        let i = choose|i: int| 0 <= i < all.len() && all[i] == slot;
        if i < a.len() {
            assert(a[i] == slot);
        } else {
            assert(b[i - a.len()] == slot);
        }
    }
}

proof fn found_means_listed(state: BootState, slot: u16, from: int)
    requires
        0 <= from,
    ensures
        crate::nvram::entry_from(state.entries@, slot, from) is Some <==> exists|i: int|
            from <= i < state.entries@.len() && (#[trigger] state.entries@[i]).0 == slot,
    decreases state.entries@.len() - from,
{
    if from < state.entries@.len() {
        found_means_listed(state, slot, from + 1);
        if state.entries@[from].0 != slot && (exists|i: int|
            from <= i < state.entries@.len() && (#[trigger] state.entries@[i]).0 == slot) {
            let i = choose|i: int|
                from <= i < state.entries@.len() && (#[trigger] state.entries@[i]).0 == slot;
            assert(from + 1 <= i);
        }
    }
}

/// The review of a change names every variable it will write, in the order it
/// writes them, and a change is carried out whenever the operator went on
/// three times.
pub proof fn the_review_names_every_write(c: ChangeView, answers: Seq<bool>, i: int)
    requires
        0 <= i < c.writes.len(),
    ensures
        change_next(c, Seq::empty()) matches BootNextView::Page { lines, .. } && {
            &&& lines.len() == c.review.len() + 2 + c.writes.len()
            &&& lines.take(c.review.len() as int) == c.review
            &&& lines[c.review.len() + 2 + i].text == "    "@ + crate::text::pad_right(
                c.writes[i].name,
                10,
            ) + " ("@ + dec(c.writes[i].data.len()) + " bytes)"@
        },
        answers.len() >= 3 && answers[0] && answers[1] && answers[2] ==> change_next(
            c,
            answers,
        ) is Apply,
        answers.len() >= 1 && !answers[0] ==> change_next(c, answers) is Done,
        answers.len() >= 2 && answers[0] && !answers[1] ==> change_next(c, answers) is Tell,
        answers.len() >= 3 && answers[0] && answers[1] && !answers[2] ==> change_next(
            c,
            answers,
        ) is Tell,
{
    let lines = c.review.push(blank_line()) + write_lines(c.writes);
    assert(lines.take(c.review.len() as int) =~= c.review);
}

/// The boot configuration is saved before the first change of a session: as
/// long as no copy was taken, a change waits for one to be chosen a place,
/// read and written, and where that failed for the operator's consent; once
/// one was taken it is not asked for again.
pub proof fn a_copy_is_taken_before_the_first_change(
    s: SoFar,
    dests: Seq<Volume>,
    attached: bool,
)
    ensures
        s.taken ==> snapshot_next(s, dests, attached) == SnapshotNextView::Settled(true),
        !s.taken && s.esp_lost && s.warned is None ==> snapshot_next(s, dests, attached) is WarnEsp,
        !s.taken && (s.esp_lost ==> s.warned == Some(true)) && s.chosen is None ==> snapshot_next(
            s,
            dests,
            attached,
        ) is Choose,
        !s.taken && (s.esp_lost ==> s.warned == Some(true)) && s.chosen == Some(true)
            && s.outcome is None ==> snapshot_next(s, dests, attached) is Take,
        !s.taken && (s.esp_lost ==> s.warned == Some(true)) && s.chosen == Some(true) && (
        s.outcome matches Some(Ok(w)) && w.ok@.len() > 0) ==> snapshot_next(
            s,
            dests,
            attached,
        ) is Saved,
        !s.taken && (s.esp_lost ==> s.warned == Some(true)) && s.chosen == Some(true) && (
        s.outcome matches Some(o) && (o matches Ok(w) ==> w.ok@.len() == 0)) && s.agreed is None
            ==> snapshot_next(s, dests, attached) is Ask,
        !s.taken && s.chosen == Some(false) ==> snapshot_next(s, dests, attached)
            != SnapshotNextView::Settled(true),
        snapshot_next(s, dests, attached) == SnapshotNextView::Settled(true) && !s.taken ==> {
            &&& s.agreed == Some(true)
            &&& s.outcome is Some
            &&& s.outcome->0 matches Ok(w) ==> w.ok@.len() == 0
        },
{
}


/// What came of a change is said as it is: everything written, nothing, or
/// how many of the writes landed and which.
pub proof fn a_change_is_answered_for(writes: Seq<VarWrite>, done: usize, why: String, i: int)
    ensures
        applied_lines(writes, Ok(()))[0] == styled("  Written to NVRAM."@, Style::Good),
        applied_lines(writes, Err((done, why)))[0] == styled("  "@ + why@, Style::Bad),
        done == 0 ==> applied_lines(writes, Err((done, why)))[2] == styled(
            "  Nothing was written; NVRAM is as it was."@,
            Style::Good,
        ),
        done > 0 ==> applied_lines(writes, Err((done, why)))[2] == styled(
            "  "@ + dec(done as nat) + " of "@ + dec(writes.len())
                + " writes had already landed:"@,
            Style::Warn,
        ),
        done > 0 && 0 <= i < done ==> applied_lines(writes, Err((done, why)))[3 + i] == styled(
            "    "@ + writes[i].name@,
            Style::Key,
        ),
{
}

/// An entry's row says what it is and where it leads, that it cannot be read
/// where it cannot, and that the order misses it where it does.
pub proof fn a_row_says_what_the_entry_is(state: BootState, paths: Seq<String>, slot: u16)
    ensures
        ({
            let row = slot_row(state, paths, slot);
            &&& row.selectable
            &&& state.found(slot) matches Some(Ok(o)) ==> row.label == summary_text(
                slot,
                o.attributes & 1 != 0,
                o.description@,
            ) && row.detail[0] == styled("  "@ + path_in(state, paths, slot), Style::Dim)
            &&& !(state.found(slot) matches Some(Ok(_))) ==> row.label == slot_text(slot)
                + "  (cannot be read)"@
            &&& state.ordered().contains(slot) <==> row.detail.len() == 1
            &&& !state.ordered().contains(slot) ==> row.detail[1] == styled(
                "  Not in the boot order."@,
                Style::Warn,
            )
        }),
{
}

} // verus!
