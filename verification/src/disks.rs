//! The disks an operation can be pointed at, and what is said of them.
//!
//! Every whole, fixed, writable disk the firmware knows about. Removable
//! media stays out: the point of the exercise is the internal drive, and a
//! rescue stick the tool was launched from is not something anyone wants to
//! find in a list of repair targets.

use crate::bootdev::{BootDevice, Node};
use crate::crc::Crc32;
use crate::disk::{BlockDevice, IoError};
use crate::layout::{recognition, recognize, Confidence};
use crate::pages::{add_item, item_view, items_of, no_items, Item, ItemView};
use crate::repair::{analysis_read, analyze, applied, apply, steps_of, Analysis, RepairPlan};
use crate::report::{
    disk_capacity, human, human_size, severity, verdict_line, verdict_message, verdict_style,
};
use crate::style::{
    add_line, bad, blank_line, dim, good, key, no_lines, shown, styled, warn,
    wrapped_lines, Line, LineView, Style,
};
use crate::text::{
    capped_succ_mul, content_of, dec, dec_text, pad_left, pad_left_text, succ_text,
};
use crate::ui::{wrapped, writable_width};
use vstd::prelude::*;

verus! {

/// What the firmware says of a block device.
#[derive(Clone, Copy, PartialEq, Eq, Structural, Debug)]
pub struct Media {
    /// It is a partition of another device.
    pub logical: bool,
    pub removable: bool,
    pub present: bool,
    pub read_only: bool,
}

/// A whole, fixed, writable disk with something in it.
pub open spec fn offerable(m: Media) -> bool {
    !m.logical && !m.removable && m.present && !m.read_only
}

/// Whether a device is one an operation can be pointed at.
pub fn is_offered(m: Media) -> (r: bool)
    ensures
        r == offerable(m),
{
    !m.logical && !m.removable && m.present && !m.read_only
}

/// Whether a device is one an operation can be pointed at that never touches
/// the disk it was launched from: a device whose path is not known cannot be
/// told from that one, so it is left alone, and where the boot device could
/// not be identified every device is.
pub fn is_candidate(m: Media, path: Option<&[Node]>, boot: &BootDevice) -> (r: bool)
    ensures
        r == (boot.path is Some && offerable(m) && (match path {
            Some(p) => !boot.carried_by(p@),
            None => false,
        })),
{
    if !boot.is_known() || !is_offered(m) {
        return false;
    }
    match path {
        Some(p) => !boot.covers(p),
        None => false,
    }
}

/// One candidate disk, as summarised for the picker.
pub struct Disk {
    pub number: usize,
    pub path: String,
    /// This disk carries the volume the image was loaded from.
    pub boot: bool,
    pub model: Option<String>,
    pub block_size: u32,
    pub last_block: u64,
    pub steamos: bool,
    /// The table as it was found, or why it could not be read.
    ///
    /// Carried rather than re-read: this is a snapshot, and that is sound
    /// because a scan is never reused across operations and nothing else in
    /// the firmware is touching the disk while the operator reads a menu.
    pub analysis: Result<Analysis, String>,
}

/// Whether the table on a disk looks like a SteamOS install.
pub open spec fn looks_like_steamos(a: Analysis) -> bool {
    match a.best() {
        Some(t) => recognition(t.entries@).confidence != Confidence::Unrecognized,
        None => false,
    }
}

/// Whether the table on a disk looks like a SteamOS install.
pub fn is_steamos(a: &Analysis) -> (r: bool)
    ensures
        r == looks_like_steamos(*a),
{
    match a.best_view() {
        Some(t) => recognize(t.entries.as_slice()).confidence != Confidence::Unrecognized,
        None => false,
    }
}

impl Disk {
    pub fn capacity(&self) -> (r: u64)
        ensures
            r == disk_capacity(self.last_block, self.block_size),
    {
        capped_succ_mul(self.last_block, self.block_size as u64)
    }

    /// The one line the operator picks from.
    pub open spec fn label_text(self) -> Seq<char> {
        "Disk "@ + dec(self.number as nat) + "  "@ + pad_left(
            human(disk_capacity(self.last_block, self.block_size)),
            10,
            ' ',
        ) + (if self.boot {
            "  [boot]"@
        } else {
            ""@
        }) + (if self.steamos {
            "  [SteamOS]"@
        } else {
            ""@
        }) + (match content_of(self.model) {
            Some(model) => "  "@ + model,
            None => Seq::empty(),
        })
    }

    /// The one line the operator picks from. Capacity first because it is
    /// what people actually recognise a drive by.
    pub fn label(&self) -> (r: String)
        ensures
            r@ == self.label_text(),
    {
        let mut s = "Disk ".to_owned();
        s.push_str(dec_text(self.number as u64).as_str());
        s.push_str("  ");
        s.push_str(pad_left_text(human_size(self.capacity()).as_str(), 10, ' ').as_str());
        let boot = if self.boot {
            "  [boot]"
        } else {
            ""
        };
        s.push_str(boot);
        let steamos = if self.steamos {
            "  [SteamOS]"
        } else {
            ""
        };
        s.push_str(steamos);
        let mut model = String::new();
        assert(model@ =~= Seq::<char>::empty());
        if let Some(m) = &self.model {
            model = "  ".to_owned();
            model.push_str(m.as_str());
        }
        s.push_str(model.as_str());
        s
    }

    /// What the state of the table comes to, in one line.
    pub open spec fn health_line(self) -> LineView {
        match self.analysis {
            Ok(a) => styled("  GPT: "@ + verdict_message(a.verdict), severity(a.verdict)),
            Err(e) => styled("  GPT: could not be read - "@ + e@, Style::Bad),
        }
    }

    /// What is shown under the list while this disk is selected.
    pub open spec fn detail_lines(self, cols: usize) -> Seq<LineView> {
        wrapped_lines(
            "  "@ + self.path@,
            writable_width(cols as int) as nat,
            Style::Dim,
            "    "@,
        ).push(
            styled(
                "  "@ + dec((self.last_block + 1) as nat) + " blocks x "@ + dec(
                    self.block_size as nat,
                ) + " B"@,
                Style::Dim,
            ),
        ).push(self.health_line())
    }

    pub fn detail(&self, cols: usize) -> (r: Vec<Line>)
        ensures
            shown(r@) == self.detail_lines(cols),
    {
        let mut path = "  ".to_owned();
        path.push_str(self.path.as_str());
        let mut out = wrapped(path.as_str(), Style::Dim, "    ", cols);
        let mut s = "  ".to_owned();
        s.push_str(succ_text(self.last_block).as_str());
        s.push_str(" blocks x ");
        s.push_str(dec_text(self.block_size as u64).as_str());
        s.push_str(" B");
        add_line(&mut out, dim(s));
        match &self.analysis {
            Ok(a) => {
                let mut s = "  GPT: ".to_owned();
                s.push_str(verdict_line(a.verdict));
                add_line(&mut out, Line::new(s, verdict_style(a.verdict)));
            },
            Err(e) => {
                let mut s = "  GPT: could not be read - ".to_owned();
                s.push_str(e.as_str());
                add_line(&mut out, bad(s));
            },
        }
        out
    }
}

// ------------------------------------------------------------- finding them

/// What analysing a disk comes to, in the words the operator is shown.
pub open spec fn analysed(r: Result<Analysis, IoError>, said: Result<Analysis, String>) -> bool {
    match (r, said) {
        (Ok(a), Ok(b)) => a == b,
        (Err(e), Err(text)) => text@ == "cannot read the GPT ("@ + e.message() + ")"@,
        _ => false,
    }
}

/// Analyse a disk.
pub fn read_disk<D: BlockDevice + ?Sized>(dev: &mut D, crc: &impl Crc32) -> (r: Result<
    Analysis,
    String,
>)
    ensures
        exists|found: Result<Analysis, IoError>|
            #![trigger analysed(found, r)]
            analysis_read(
                old(dev).trace(),
                final(dev).trace(),
                old(dev).blocks_of(),
                old(dev).last_of(),
                found,
            ) && analysed(found, r),
{
    let ghost before = dev.trace();
    let found = analyze(dev, crc);
    match found {
        Ok(a) => {
            let r: Result<Analysis, String> = Ok(a);
            assert(analysed(Ok(a), r));
            r
        },
        Err(e) => {
            let mut s = "cannot read the GPT (".to_owned();
            s.push_str(e.to_text());
            s.push_str(")");
            let r: Result<Analysis, String> = Err(s);
            assert(analysed(Err(e), r));
            r
        },
    }
}

/// A disk that was found, as it is listed: numbered after those found
/// before it, and marked where it carries the volume the program came from
/// or looks like a SteamOS install.
pub fn found_disk(
    before: usize,
    path: String,
    nodes: Option<&[Node]>,
    boot: &BootDevice,
    model: Option<String>,
    block_size: u32,
    last_block: u64,
    analysis: Result<Analysis, String>,
) -> (r: Disk)
    requires
        before < usize::MAX,
    ensures
        r == (Disk {
            number: (before + 1) as usize,
            path,
            boot: (match nodes {
                Some(p) => boot.carried_by(p@),
                None => false,
            }),
            model,
            block_size,
            last_block,
            steamos: (match analysis {
                Ok(a) => looks_like_steamos(a),
                Err(_) => false,
            }),
            analysis,
        }),
{
    let carries = match nodes {
        Some(p) => boot.covers(p),
        None => false,
    };
    let steamos = match &analysis {
        Ok(a) => is_steamos(a),
        Err(_) => false,
    };
    Disk {
        number: before + 1,
        path,
        boot: carries,
        model,
        block_size,
        last_block,
        steamos,
        analysis,
    }
}

// ------------------------------------------------------------------ picking

/// How a disk is picked from those there are.
#[derive(Clone, Copy, PartialEq, Eq, Structural, Debug)]
pub enum Picking {
    /// There is none.
    Nothing,
    /// There is one, and it is taken without asking. A menu of one is not a
    /// choice; what makes it safe is that the disk is named in the header of
    /// every screen the operation goes on to draw.
    Only,
    /// The operator is asked.
    Ask,
}

/// How a disk is picked from `n`.
pub open spec fn picking(n: int) -> Picking {
    if n == 1 {
        Picking::Only
    } else if n == 0 {
        Picking::Nothing
    } else {
        Picking::Ask
    }
}

/// How a disk is picked.
pub fn pick_from(disks: &[Disk]) -> (r: Picking)
    ensures
        r == picking(disks@.len() as int),
{
    if disks.len() == 1 {
        Picking::Only
    } else if disks.len() == 0 {
        Picking::Nothing
    } else {
        Picking::Ask
    }
}

/// What is said where there is no disk to pick.
pub open spec fn no_disk_lines() -> Seq<LineView> {
    seq![
        styled("  No fixed, writable, whole disks were found."@, Style::Bad),
        blank_line(),
        styled("  Only removable media is present, and this tool"@, Style::Dim),
        styled("  does not offer to rewrite that."@, Style::Dim),
    ]
}

/// What is said where there is no disk to pick.
pub fn no_disks() -> (r: Vec<Line>)
    ensures
        shown(r@) == no_disk_lines(),
{
    let mut out = no_lines();
    add_line(&mut out, bad("  No fixed, writable, whole disks were found."));
    add_line(&mut out, Line::blank());
    add_line(&mut out, dim("  Only removable media is present, and this tool"));
    add_line(&mut out, dim("  does not offer to rewrite that."));
    out
}

/// What stands above the list of disks.
pub open spec fn pick_intro_lines() -> Seq<LineView> {
    seq![
        styled("  Choose a disk. Removable media is not listed."@, Style::Dim),
        styled("  [boot] carries the volume this program came from."@, Style::Dim),
    ]
}

/// What stands above the list of disks.
pub fn pick_intro() -> (r: Vec<Line>)
    ensures
        shown(r@) == pick_intro_lines(),
{
    let mut out = no_lines();
    add_line(&mut out, dim("  Choose a disk. Removable media is not listed."));
    add_line(&mut out, dim("  [boot] carries the volume this program came from."));
    out
}

/// The disks as rows to pick from.
pub open spec fn disk_rows(disks: Seq<Disk>, cols: usize) -> Seq<ItemView> {
    Seq::new(
        disks.len(),
        |i: int| item_view(disks[i].label_text(), disks[i].detail_lines(cols)),
    )
}

/// The disks as rows to pick from.
pub fn disk_items(disks: &[Disk], cols: usize) -> (r: Vec<Item>)
    ensures
        items_of(r@) == disk_rows(disks@, cols),
{
    let mut out = no_items();
    let mut i: usize = 0;
    assert(items_of(out@) =~= disk_rows(disks@.take(0), cols));
    while i < disks.len()
        invariant
            i <= disks@.len(),
            items_of(out@) == disk_rows(disks@.take(i as int), cols),
        decreases disks@.len() - i,
    {
        let ghost before = disk_rows(disks@.take(i as int), cols);
        add_item(&mut out, Item::with_detail(disks[i].label(), disks[i].detail(cols)));
        i += 1;
        assert(disk_rows(disks@.take(i as int), cols) =~= before.push(
            item_view(disks@[i - 1].label_text(), disks@[i - 1].detail_lines(cols)),
        ));
    }
    assert(disks@.take(i as int) =~= disks@);
    out
}

// -------------------------------------------------------------- the outcome

/// What carrying out a plan comes to, in the words the operator is shown.
pub open spec fn executed(r: Result<(), IoError>, exclusive: bool, said: Result<bool, String>) -> bool {
    match (r, said) {
        (Ok(_), Ok(b)) => b == exclusive,
        (Err(e), Err(text)) => text@ == "write failed: "@ + e.message(),
        _ => false,
    }
}

/// Carry out a plan on an open disk. `exclusive` is whether it was opened
/// with nobody else using it; the firmware may refuse that for the disk the
/// program came from, and the caller reports which happened.
pub fn execute<D: BlockDevice + ?Sized>(dev: &mut D, plan: &RepairPlan, exclusive: bool) -> (r:
    Result<bool, String>)
    ensures
        exists|done: Result<(), IoError>|
            #![trigger executed(done, exclusive, r)]
            applied(old(dev).trace(), final(dev).trace(), steps_of(plan.steps@), done) && executed(
                done,
                exclusive,
                r,
            ),
{
    let done = apply(dev, plan);
    match done {
        Ok(_) => {
            let r: Result<bool, String> = Ok(exclusive);
            assert(executed(done, exclusive, r));
            r
        },
        Err(e) => {
            let mut s = "write failed: ".to_owned();
            s.push_str(e.to_text());
            let r: Result<bool, String> = Err(s);
            assert(executed(done, exclusive, r));
            r
        },
    }
}

/// What came of a write, for the operator.
pub struct Report {
    pub title: String,
    pub lines: Vec<Line>,
    /// The write took the disk away from the driver serving the volume the
    /// program came from.
    pub esp_lost: bool,
}

/// What is said of a write: whether it was made with the disk to itself, or
/// why it failed.
pub open spec fn outcome_lines(result: Result<bool, String>) -> Seq<LineView> {
    match result {
        Ok(exclusive) => {
            let done = seq![
                styled("  Written and flushed."@, Style::Good),
                blank_line(),
                styled("  Reboot when you are done."@, Style::Key),
            ];
            if exclusive {
                done
            } else {
                done + seq![
                    blank_line(),
                    styled("  (The disk was busy, so the write was made without"@, Style::Warn),
                    styled("  exclusive access. The firmware's own view of the"@, Style::Warn),
                    styled("  partitions is stale until you reboot.)"@, Style::Warn),
                ]
            }
        },
        Err(e) => seq![
            styled("  "@ + e@, Style::Bad),
            blank_line(),
            styled("  Do NOT reboot into the OS; use a rescue USB."@, Style::Bad),
        ],
    }
}

/// What came of a write.
///
/// Exclusive access is what stops another driver's cached view racing the
/// write, but it also disconnects the filesystem driver serving the disk:
/// on the disk the program came from, that is its own volume.
pub fn report_write(title: &str, boot: bool, result: &Result<bool, String>) -> (r: Report)
    ensures
        r.title@ == if result is Ok {
            title@
        } else {
            title@ + " FAILED"@
        },
        shown(r.lines@) == outcome_lines(*result),
        r.esp_lost == (boot && *result == Ok::<bool, String>(true)),
{
    let mut lines = no_lines();
    match result {
        Ok(exclusive) => {
            add_line(&mut lines, good("  Written and flushed."));
            add_line(&mut lines, Line::blank());
            add_line(&mut lines, key("  Reboot when you are done."));
            let ghost done = shown(lines@);
            if !*exclusive {
                add_line(&mut lines, Line::blank());
                add_line(
                    &mut lines,
                    warn("  (The disk was busy, so the write was made without"),
                );
                add_line(
                    &mut lines,
                    warn("  exclusive access. The firmware's own view of the"),
                );
                add_line(&mut lines, warn("  partitions is stale until you reboot.)"));
            }
            assert(shown(lines@) =~= outcome_lines(*result));
            Report { title: title.to_owned(), lines, esp_lost: boot && *exclusive }
        },
        Err(e) => {
            let mut s = "  ".to_owned();
            s.push_str(e.as_str());
            add_line(&mut lines, bad(s));
            add_line(&mut lines, Line::blank());
            add_line(&mut lines, bad("  Do NOT reboot into the OS; use a rescue USB."));
            let mut failed = title.to_owned();
            failed.push_str(" FAILED");
            Report { title: failed, lines, esp_lost: false }
        },
    }
}

/// A failure, in one line.
pub fn show_error(message: &str) -> (r: Vec<Line>)
    ensures
        shown(r@) == seq![styled("  "@ + message@, Style::Bad)],
{
    let mut s = "  ".to_owned();
    s.push_str(message);
    let mut out = no_lines();
    add_line(&mut out, bad(s));
    out
}

/// Not a failure: a refusal, or a choice the operator made.
pub fn show_note(message: &str) -> (r: Vec<Line>)
    ensures
        shown(r@) == seq![styled("  "@ + message@, Style::Warn)],
{
    let mut s = "  ".to_owned();
    s.push_str(message);
    let mut out = no_lines();
    add_line(&mut out, warn(s));
    out
}


/// A disk that is removable, empty, read-only or a partition of another is
/// never offered, and any other is.
pub proof fn what_is_offered_can_be_written(m: Media)
    ensures
        offerable(m) ==> m.present,
        m.logical || m.removable || m.read_only ==> !offerable(m),
        m == (Media { logical: false, removable: false, present: true, read_only: false })
            ==> offerable(m),
{
}

/// Whether a write was made is always said, and what to do about it: one that
/// failed gives its reason and warns against rebooting, and one that was made
/// without the disk to itself says so.
pub proof fn every_write_is_answered_for(result: Result<bool, String>)
    ensures
        result is Ok ==> outcome_lines(result)[0] == styled("  Written and flushed."@, Style::Good),
        result is Ok ==> outcome_lines(result)[2] == styled(
            "  Reboot when you are done."@,
            Style::Key,
        ),
        result == Ok::<bool, String>(true) ==> outcome_lines(result).len() == 3,
        result == Ok::<bool, String>(false) ==> outcome_lines(result).len() == 7 && outcome_lines(
            result,
        )[4] == styled("  (The disk was busy, so the write was made without"@, Style::Warn),
        result matches Err(why) ==> outcome_lines(result)[0] == styled("  "@ + why@, Style::Bad)
            && outcome_lines(result).last() == styled(
            "  Do NOT reboot into the OS; use a rescue USB."@,
            Style::Bad,
        ),
{
}

/// A disk is taken for a SteamOS install exactly if the table it is judged by
/// is recognised as one.
pub proof fn a_disk_is_judged_by_its_best_table(a: Analysis)
    ensures
        a.main matches Ok(t) ==> (t.valid() ==> looks_like_steamos(a) == !(recognition(
            t.entries@,
        ).confidence is Unrecognized)),
        a.main is Err ==> (a.secondary matches Ok(t) ==> looks_like_steamos(a) == !(recognition(
            t.entries@,
        ).confidence is Unrecognized)),
        a.main is Err && a.secondary is Err ==> !looks_like_steamos(a),
{
}


/// One disk is taken without asking, several are asked about, and none is
/// said to be none.
pub proof fn a_choice_is_offered_where_there_is_one(n: int)
    requires
        n >= 0,
    ensures
        picking(n) == Picking::Nothing <==> n == 0,
        picking(n) == Picking::Only <==> n == 1,
        picking(n) == Picking::Ask <==> n >= 2,
{
}

/// Every disk has its row, with its size and what was found on it.
pub proof fn every_disk_has_a_row(disks: Seq<Disk>, cols: usize, i: int)
    requires
        0 <= i < disks.len(),
    ensures
        ({
            let rows = disk_rows(disks, cols);
            let d = disks[i];
            &&& rows.len() == disks.len()
            &&& rows[i].label == d.label_text()
            &&& rows[i].selectable
            &&& rows[i].detail[rows[i].detail.len() - 2].text == "  "@ + dec(
                (d.last_block + 1) as nat,
            ) + " blocks x "@ + dec(d.block_size as nat) + " B"@
            &&& d.analysis matches Ok(a) ==> rows[i].detail.last() == styled(
                "  GPT: "@ + verdict_message(a.verdict),
                severity(a.verdict),
            )
            &&& d.analysis matches Err(e) ==> rows[i].detail.last() == styled(
                "  GPT: could not be read - "@ + e@,
                Style::Bad,
            )
        }),
{
}

} // verus!
