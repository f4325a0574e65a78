//! Snapshots that were saved: what is found on the volumes, what each says,
//! and which disk it belongs to.

use crate::backup::{
    self, comparison, compare, inspect, inspection_lines, meta_from, summary, summary_text, Archive,
    ArchiveView, Comparison, Match,
};
use crate::crc::Crc32;
use crate::disks::Disk;
use crate::guid::guid_text;
use crate::pages::{add_item, item_view, items_of, no_items, Item, ItemView};
use crate::style::{
    add_line, add_lines, bad, blank_line, dim, in_either, in_pushed, key, no_lines, shown, styled,
    warn, Line, LineView, Style,
};
use crate::text::{dec, dec_text, pad_right, pad_right_text};
use crate::volumes::DIR;
use vstd::prelude::*;

verus! {

/// A saved file, read into memory in full.
pub struct File {
    pub name: String,
    /// The contents, or why they could not be read.
    ///
    /// A snapshot that cannot be read is still a snapshot that exists. It
    /// has to appear here rather than be dropped, so the operator is told
    /// about it.
    pub data: Result<Vec<u8>, String>,
}

/// One volume that was looked at: what it is called, and its files or why
/// they could not be listed.
pub struct Looked {
    pub volume: String,
    pub files: Result<Vec<File>, String>,
}

/// A snapshot found on one of the volumes, with whatever can be worked out
/// about where it came from.
pub struct Saved {
    pub name: String,
    /// The volume it was found on. Carried because two volumes can each hold
    /// a `gpt.001`, and then the name alone names two files.
    pub source: String,
    pub archive: Archive,
    /// The disk this most likely belongs to, and why.
    pub best: Option<(usize, Comparison)>,
}

/// [`Saved`] as a value.
pub struct SavedView {
    pub name: Seq<char>,
    pub source: Seq<char>,
    pub archive: ArchiveView,
    pub best: Option<(usize, Comparison)>,
}

impl View for Saved {
    type V = SavedView;

    open spec fn view(&self) -> SavedView {
        SavedView {
            name: self.name@,
            source: self.source@,
            archive: self.archive@,
            best: self.best,
        }
    }
}

/// Snapshots as values.
pub open spec fn saved_of(v: Seq<Saved>) -> Seq<SavedView> {
    Seq::new(v.len(), |i: int| v[i]@)
}

// -------------------------------------------------------- which disk it fits

/// A snapshot fits one disk better than another: it belongs to the one and
/// not to the other, or more of its partitions are on it.
pub open spec fn fits_better(c: Comparison, than: Option<(usize, Comparison)>) -> bool {
    match than {
        None => true,
        Some((_, prev)) => (c.conclusion() == Match::SameDisk && prev.conclusion()
            != Match::SameDisk) || c.shared_partitions > prev.shared_partitions,
    }
}

/// The one of the first `n` disks a snapshot most likely belongs to.
pub open spec fn best_disk(a: ArchiveView, disks: Seq<Disk>, n: nat) -> Option<(usize, Comparison)>
    decreases n,
{
    if n == 0 {
        None
    } else {
        let prev = best_disk(a, disks, (n - 1) as nat);
        match disks[n - 1].analysis {
            Err(_) => prev,
            Ok(t) => {
                let c = comparison(a, t);
                if c.conclusion() != Match::DifferentDisk && fits_better(c, prev) {
                    Some(((n - 1) as usize, c))
                } else {
                    prev
                }
            },
        }
    }
}

fn find_best(archive: &Archive, disks: &[Disk]) -> (r: Option<(usize, Comparison)>)
    ensures
        r == best_disk(archive@, disks@, disks@.len()),
        r matches Some((i, _)) ==> i < disks@.len(),
{
    let mut best: Option<(usize, Comparison)> = None;
    let mut i: usize = 0;
    assert(disks.len() == disks@.len());
    while i < disks.len()
        invariant
            i <= disks@.len(),
            disks@.len() <= usize::MAX,
            best == best_disk(archive@, disks@, i as nat),
            best matches Some((k, _)) ==> k < i,
        decreases disks@.len() - i,
    {
        if let Ok(t) = &disks[i].analysis {
            let c = compare(archive, t);
            if c.verdict() != Match::DifferentDisk {
                let better = match &best {
                    None => true,
                    Some((_, prev)) => (c.verdict() == Match::SameDisk && prev.verdict()
                        != Match::SameDisk) || c.shared_partitions > prev.shared_partitions,
                };
                if better {
                    best = Some((i, c));
                }
            }
        }
        i += 1;
    }
    best
}

/// Work out which of the disks present each snapshot belongs to.
///
/// Geometry alone would be a weak answer on a machine with two identical
/// drives, so this leans on the per-partition unique GUIDs.
pub fn attribute(saved: Vec<Saved>, disks: &[Disk]) -> (r: Vec<Saved>)
    ensures
        saved_of(r@) == Seq::new(
            saved@.len(),
            |i: int|
                SavedView {
                    best: best_disk(saved@[i].archive@, disks@, disks@.len()),
                    ..saved@[i]@
                },
        ),
        forall|i: int| 0 <= i < r@.len() ==> (#[trigger] r@[i]).among(disks@),
{
    let mut out = saved;
    let mut i: usize = 0;
    while i < out.len()
        invariant
            i <= out@.len(),
            out@.len() == saved@.len(),
            forall|j: int| i <= j < out@.len() ==> #[trigger] out@[j] == saved@[j],
            forall|j: int| 0 <= j < i ==> (#[trigger] out@[j]).among(disks@),
            forall|j: int|
                0 <= j < i ==> (#[trigger] out@[j])@ == (SavedView {
                    best: best_disk(saved@[j].archive@, disks@, disks@.len()),
                    ..saved@[j]@
                }),
        decreases out@.len() - i,
    {
        let best = find_best(&out[i].archive, disks);
        out[i].best = best;
        i += 1;
    }
    assert(saved_of(out@) =~= Seq::new(
        saved@.len(),
        |i: int|
            SavedView {
                best: best_disk(saved@[i].archive@, disks@, disks@.len()),
                ..saved@[i]@
            },
    ));
    out
}

/// A snapshot is only ever said to belong to a disk that was read and that
/// its geometry fits.
pub proof fn a_snapshot_belongs_where_it_fits(a: ArchiveView, disks: Seq<Disk>, n: nat)
    requires
        n <= disks.len() <= usize::MAX,
    ensures
        best_disk(a, disks, n) matches Some((i, c)) ==> i < n && (disks[i as int].analysis matches Ok(
            t,
        ) && c == comparison(a, t)) && c.geometry,
    decreases n,
{
    if n > 0 {
        a_snapshot_belongs_where_it_fits(a, disks, (n - 1) as nat);
    }
}

// ------------------------------------------------------------ what is found

/// The line for a volume that could not be listed.
pub open spec fn unlisted_line(volume: Seq<char>, why: Seq<char>) -> LineView {
    styled("  "@ + volume + " - "@ + why, Style::Bad)
}

/// The line for a file that could not be used.
pub open spec fn rejected_line(file: Seq<char>, volume: Seq<char>, why: Seq<char>) -> LineView {
    styled("  "@ + file + " on "@ + volume + " - "@ + why, Style::Bad)
}

pub(crate) fn unlisted(volume: &str, why: &str) -> (r: Line)
    ensures
        r@ == unlisted_line(volume@, why@),
{
    let mut s = "  ".to_owned();
    s.push_str(volume);
    s.push_str(" - ");
    s.push_str(why);
    bad(s)
}

pub(crate) fn rejected(file: &str, volume: &str, why: &str) -> (r: Line)
    ensures
        r@ == rejected_line(file@, volume@, why@),
{
    let mut s = "  ".to_owned();
    s.push_str(file);
    s.push_str(" on ");
    s.push_str(volume);
    s.push_str(" - ");
    s.push_str(why);
    bad(s)
}

/// What a file comes to: a snapshot, or why it is not one.
pub open spec fn gpt_in(file: File) -> Result<ArchiveView, Seq<char>> {
    match file.data {
        Err(e) => Err(e@),
        Ok(data) => match backup::file_says(data@) {
            Ok(a) => Ok(a),
            Err(e) => Err(e.message()),
        },
    }
}

/// The snapshots among the first `n` files of a volume.
pub open spec fn gpts_among(files: Seq<File>, volume: Seq<char>, n: nat) -> Seq<SavedView>
    decreases n,
{
    if n == 0 {
        Seq::empty()
    } else {
        let rest = gpts_among(files, volume, (n - 1) as nat);
        match gpt_in(files[n - 1]) {
            Ok(archive) => rest.push(
                SavedView { name: files[n - 1].name@, source: volume, archive, best: None },
            ),
            Err(_) => rest,
        }
    }
}

/// What is said of the others.
pub open spec fn bad_gpts_among(files: Seq<File>, volume: Seq<char>, n: nat) -> Seq<LineView>
    decreases n,
{
    if n == 0 {
        Seq::empty()
    } else {
        let rest = bad_gpts_among(files, volume, (n - 1) as nat);
        match gpt_in(files[n - 1]) {
            Ok(_) => rest,
            Err(e) => rest.push(rejected_line(files[n - 1].name@, volume, e)),
        }
    }
}

/// The snapshots on the first `n` volumes.
pub open spec fn gpts_found(looked: Seq<Looked>, n: nat) -> Seq<SavedView>
    decreases n,
{
    if n == 0 {
        Seq::empty()
    } else {
        let rest = gpts_found(looked, (n - 1) as nat);
        match looked[n - 1].files {
            Ok(files) => rest + gpts_among(files@, looked[n - 1].volume@, files@.len()),
            Err(_) => rest,
        }
    }
}

/// What is said of everything else found on the first `n` volumes.
pub open spec fn gpts_rejected(looked: Seq<Looked>, n: nat) -> Seq<LineView>
    decreases n,
{
    if n == 0 {
        Seq::empty()
    } else {
        let rest = gpts_rejected(looked, (n - 1) as nat);
        match looked[n - 1].files {
            Ok(files) => rest + bad_gpts_among(files@, looked[n - 1].volume@, files@.len()),
            Err(e) => rest.push(unlisted_line(looked[n - 1].volume@, e@)),
        }
    }
}

/// What was found in the backup directory on every volume: the snapshots
/// that decoded, and a readable complaint about each one that did not.
pub struct Found {
    pub usable: Vec<Saved>,
    pub rejected: Vec<Line>,
}

/// Every snapshot among these was taken of a disk with blocks.
pub open spec fn all_have_blocks(saved: Seq<Saved>) -> bool {
    forall|i: int| 0 <= i < saved.len() ==> (#[trigger] saved[i]).archive.block_size > 0
}

fn load_file(found: &mut Found, volume: &str, file: &File, crc: &impl Crc32)
    requires
        all_have_blocks(old(found).usable@),
    ensures
        all_have_blocks(final(found).usable@),
        match gpt_in(*file) {
            Ok(archive) => {
                &&& saved_of(final(found).usable@) == saved_of(old(found).usable@).push(
                    SavedView { name: file.name@, source: volume@, archive, best: None },
                )
                &&& shown(final(found).rejected@) == shown(old(found).rejected@)
            },
            Err(e) => {
                &&& saved_of(final(found).usable@) == saved_of(old(found).usable@)
                &&& shown(final(found).rejected@) == shown(old(found).rejected@).push(
                    rejected_line(file.name@, volume@, e),
                )
            },
        },
{
    let ghost before = saved_of(found.usable@);
    match &file.data {
        Err(e) => add_line(
            &mut found.rejected,
            rejected(file.name.as_str(), volume, e.as_str()),
        ),
        Ok(data) => match backup::decode(data.as_slice(), crc) {
            Ok(archive) => {
                found.usable.push(
                    Saved { name: file.name.clone(), source: volume.to_owned(), archive, best: None },
                );
                assert(saved_of(found.usable@) =~= before.push(
                    SavedView {
                        name: file.name@,
                        source: volume@,
                        archive: archive@,
                        best: None,
                    },
                ));
            },
            Err(e) => add_line(
                &mut found.rejected,
                rejected(file.name.as_str(), volume, e.to_text().as_str()),
            ),
        },
    }
}

fn load_files(found: &mut Found, volume: &str, files: &[File], crc: &impl Crc32)
    requires
        all_have_blocks(old(found).usable@),
    ensures
        all_have_blocks(final(found).usable@),
        saved_of(final(found).usable@) == saved_of(old(found).usable@) + gpts_among(
            files@,
            volume@,
            files@.len(),
        ),
        shown(final(found).rejected@) == shown(old(found).rejected@) + bad_gpts_among(
            files@,
            volume@,
            files@.len(),
        ),
{
    let ghost usable = saved_of(found.usable@);
    let ghost lines = shown(found.rejected@);
    let mut i: usize = 0;
    assert(saved_of(found.usable@) =~= usable + gpts_among(files@, volume@, 0));
    assert(shown(found.rejected@) =~= lines + bad_gpts_among(files@, volume@, 0));
    while i < files.len()
        invariant
            i <= files@.len(),
            all_have_blocks(found.usable@),
            saved_of(found.usable@) == usable + gpts_among(files@, volume@, i as nat),
            shown(found.rejected@) == lines + bad_gpts_among(files@, volume@, i as nat),
        decreases files@.len() - i,
    {
        load_file(found, volume, &files[i], crc);
        i += 1;
        assert(saved_of(found.usable@) =~= usable + gpts_among(files@, volume@, i as nat));
        assert(shown(found.rejected@) =~= lines + bad_gpts_among(files@, volume@, i as nat));
    }
}

/// Decode every snapshot on every volume, reporting the ones that cannot be
/// used rather than quietly dropping them.
///
/// A volume that cannot be listed is a rejection like any other and not a
/// failure of the whole screen: an unreadable stick must not stand between
/// the operator and the snapshots sitting on the ESP. It is still said out
/// loud, because "there are no snapshots" and "I could not look" are
/// different answers.
pub fn load_saved(looked: &[Looked], crc: &impl Crc32) -> (r: Found)
    ensures
        saved_of(r.usable@) == gpts_found(looked@, looked@.len()),
        shown(r.rejected@) == gpts_rejected(looked@, looked@.len()),
        all_have_blocks(r.usable@),
{
    let mut found = Found { usable: Vec::new(), rejected: no_lines() };
    let mut i: usize = 0;
    assert(saved_of(found.usable@) =~= gpts_found(looked@, 0));
    while i < looked.len()
        invariant
            i <= looked@.len(),
            all_have_blocks(found.usable@),
            saved_of(found.usable@) == gpts_found(looked@, i as nat),
            shown(found.rejected@) == gpts_rejected(looked@, i as nat),
        decreases looked@.len() - i,
    {
        let volume = looked[i].volume.as_str();
        match &looked[i].files {
            Ok(files) => load_files(&mut found, volume, files.as_slice(), crc),
            Err(e) => add_line(&mut found.rejected, unlisted(volume, e.as_str())),
        }
        i += 1;
    }
    found
}

// -------------------------------------------------------------- the screens

/// What is said where nothing can be used.
pub open spec fn nothing_usable_lines(rejected: Seq<LineView>) -> Seq<LineView> {
    let head = seq![
        styled("  No usable snapshots in \\"@ + DIR@ + "\\, on the ESP or on"@, Style::Warn),
        styled("  any removable media attached now."@, Style::Warn),
    ];
    head + rejected_block(rejected)
}

/// What was rejected, under its heading, where anything was.
pub open spec fn rejected_block(rejected: Seq<LineView>) -> Seq<LineView> {
    if rejected.len() == 0 {
        Seq::empty()
    } else {
        seq![blank_line(), styled("  Rejected:"@, Style::Warn)] + rejected
    }
}

pub(crate) fn add_rejected(out: &mut Vec<Line>, rejected: Vec<Line>)
    ensures
        shown(final(out)@) == shown(old(out)@) + rejected_block(shown(rejected@)),
{
    assert(shown(rejected@).len() == rejected@.len());
    let ghost before = shown(out@);
    let ghost all = shown(rejected@);
    if rejected.len() > 0 {
        add_line(out, Line::blank());
        add_line(out, warn("  Rejected:"));
        add_lines(out, rejected);
    }
    assert(shown(out@) =~= before + rejected_block(all));
}

/// What is said where nothing can be used.
pub fn nothing_usable(rejected: Vec<Line>) -> (r: Vec<Line>)
    ensures
        shown(r@) == nothing_usable_lines(shown(rejected@)),
{
    let mut out = no_lines();
    let mut s = "  No usable snapshots in \\".to_owned();
    s.push_str(DIR);
    s.push_str("\\, on the ESP or on");
    add_line(&mut out, warn(s));
    add_line(&mut out, warn("  any removable media attached now."));
    add_rejected(&mut out, rejected);
    out
}

/// What is said of the files that are not offered.
pub open spec fn some_unusable_lines(rejected: Seq<LineView>) -> Seq<LineView> {
    seq![
        styled("  Some files could not be read and are not offered"@, Style::Warn),
        styled("  below:"@, Style::Warn),
        blank_line(),
    ] + rejected
}

/// What is said of the files that are not offered.
pub fn some_unusable(rejected: Vec<Line>) -> (r: Vec<Line>)
    ensures
        shown(r@) == some_unusable_lines(shown(rejected@)),
{
    let mut out = no_lines();
    add_line(&mut out, warn("  Some files could not be read and are not offered"));
    add_line(&mut out, warn("  below:"));
    add_line(&mut out, Line::blank());
    let ghost head = shown(out@);
    add_lines(&mut out, rejected);
    out
}

/// How putting something back begins.
pub enum Opening {
    /// Show the warning that the ESP may be gone.
    WarnEsp,
    /// Look through the volumes.
    Load,
    /// There is nothing to put back: say so, and it is over.
    Nothing { lines: Vec<Line> },
    /// Say what could not be read, then offer the rest.
    Note { lines: Vec<Line> },
    /// Offer what was found.
    Offer,
    /// The operator backed out.
    Done,
}

/// [`Opening`] as a value.
pub enum OpeningView {
    WarnEsp,
    Load,
    Nothing { lines: Seq<LineView> },
    Note { lines: Seq<LineView> },
    Offer,
    Done,
}

impl View for Opening {
    type V = OpeningView;

    open spec fn view(&self) -> OpeningView {
        match self {
            Opening::WarnEsp => OpeningView::WarnEsp,
            Opening::Load => OpeningView::Load,
            Opening::Nothing { lines } => OpeningView::Nothing { lines: shown(lines@) },
            Opening::Note { lines } => OpeningView::Note { lines: shown(lines@) },
            Opening::Offer => OpeningView::Offer,
            Opening::Done => OpeningView::Done,
        }
    }
}

/// How putting a partition table back begins: `found` is how many snapshots
/// can be used and what is said of the rest, once they were looked for.
pub open spec fn opening(
    esp_lost: bool,
    warned: Option<bool>,
    found: Option<(usize, Seq<LineView>)>,
) -> OpeningView {
    if esp_lost && warned is None {
        OpeningView::WarnEsp
    } else if esp_lost && warned == Some(false) {
        OpeningView::Done
    } else {
        match found {
            None => OpeningView::Load,
            Some((usable, rejected)) => if usable == 0 {
                OpeningView::Nothing { lines: nothing_usable_lines(rejected) }
            } else if rejected.len() > 0 {
                OpeningView::Note { lines: some_unusable_lines(rejected) }
            } else {
                OpeningView::Offer
            },
        }
    }
}

/// What was found, as a value.
pub open spec fn found_view(found: Option<(usize, Vec<Line>)>) -> Option<(usize, Seq<LineView>)> {
    match found {
        Some((n, lines)) => Some((n, shown(lines@))),
        None => None,
    }
}

/// How putting a partition table back begins.
pub fn restore_opening(
    esp_lost: bool,
    warned: Option<bool>,
    found: Option<(usize, Vec<Line>)>,
) -> (r: Opening)
    ensures
        r@ == opening(esp_lost, warned, found_view(found)),
{
    if esp_lost {
        match warned {
            None => return Opening::WarnEsp,
            Some(false) => return Opening::Done,
            Some(true) => {},
        }
    }
    match found {
        None => Opening::Load,
        Some((usable, rejected)) => {
            assert(shown(rejected@).len() == rejected@.len());
            if usable == 0 {
                Opening::Nothing { lines: nothing_usable(rejected) }
            } else if rejected.len() > 0 {
                Opening::Note { lines: some_unusable(rejected) }
            } else {
                Opening::Offer
            }
        },
    }
}

impl Saved {
    /// The row of the list.
    pub open spec fn label_text(self) -> Seq<char> {
        pad_right(self.name@, 8) + " "@ + summary_text(self.archive@)
    }

    pub fn label(&self) -> (r: String)
        ensures
            r@ == self.label_text(),
    {
        let mut s = pad_right_text(self.name.as_str(), 8);
        s.push_str(" ");
        s.push_str(summary(&self.archive).as_str());
        s
    }

    /// The disk it was attributed to is one of these.
    pub open spec fn among(self, disks: Seq<Disk>) -> bool {
        self.best matches Some((i, _)) ==> i < disks.len()
    }

    /// Which disk it belongs to, in one line.
    pub open spec fn belongs_line(self, disks: Seq<Disk>) -> LineView {
        match self.best {
            Some((i, c)) => styled(
                "  Belongs to: Disk "@ + dec(disks[i as int].number as nat) + " - "@ + c.evidence(),
                c.severity(),
            ),
            None => styled("  Belongs to: no disk here that it fits"@, Style::Bad),
        }
    }

    pub fn belongs_to(&self, disks: &[Disk]) -> (r: Line)
        requires
            self.among(disks@),
        ensures
            r@ == self.belongs_line(disks@),
    {
        match &self.best {
            Some((i, c)) => {
                let mut s = "  Belongs to: Disk ".to_owned();
                s.push_str(dec_text(disks[*i].number as u64).as_str());
                s.push_str(" - ");
                s.push_str(c.describe().as_str());
                Line::new(s, c.style())
            },
            None => bad("  Belongs to: no disk here that it fits"),
        }
    }

    /// What is shown under the list while it is selected. The volume comes
    /// before the disk GUID, because with the same name on two volumes it is
    /// the line that says which row is which.
    pub open spec fn detail_lines(self, disks: Seq<Disk>) -> Seq<LineView> {
        seq![
            self.belongs_line(disks),
            styled("  found on "@ + self.source@, Style::Dim),
            styled("  disk GUID "@ + guid_text(self.archive@.disk_guid), Style::Dim),
            written_line(meta_from(self.archive@.meta, "tool"@, 0)),
        ]
    }

    fn detail(&self, disks: &[Disk]) -> (r: Vec<Line>)
        requires
            self.among(disks@),
        ensures
            shown(r@) == self.detail_lines(disks@),
    {
        let mut out = no_lines();
        add_line(&mut out, self.belongs_to(disks));
        let mut s = "  found on ".to_owned();
        s.push_str(self.source.as_str());
        add_line(&mut out, dim(s));
        let mut s = "  disk GUID ".to_owned();
        s.push_str(self.archive.disk_guid.to_text().as_str());
        add_line(&mut out, dim(s));
        add_line(&mut out, written_by(self.archive.meta_get("tool")));
        assert(shown(out@) =~= self.detail_lines(disks@));
        out
    }
}

/// Which build wrote a snapshot.
pub open spec fn written_line(tool: Option<Seq<char>>) -> LineView {
    match tool {
        Some(t) => styled("  written by "@ + t, Style::Dim),
        None => styled("  written by an older build"@, Style::Dim),
    }
}

pub(crate) fn written_by(tool: Option<&str>) -> (r: Line)
    ensures
        r@ == written_line(
            match tool {
                Some(t) => Some(t@),
                None => None,
            },
        ),
{
    match tool {
        Some(t) => {
            let mut s = "  written by ".to_owned();
            s.push_str(t);
            dim(s)
        },
        None => dim("  written by an older build"),
    }
}

/// The snapshots as rows to pick from.
pub open spec fn saved_rows(saved: Seq<Saved>, disks: Seq<Disk>) -> Seq<ItemView> {
    Seq::new(
        saved.len(),
        |i: int| item_view(saved[i].label_text(), saved[i].detail_lines(disks)),
    )
}

/// The snapshots as rows to pick from.
pub fn saved_items(saved: &[Saved], disks: &[Disk]) -> (r: Vec<Item>)
    requires
        forall|i: int| 0 <= i < saved@.len() ==> (#[trigger] saved@[i]).among(disks@),
    ensures
        items_of(r@) == saved_rows(saved@, disks@),
{
    let mut out = no_items();
    let mut i: usize = 0;
    assert(items_of(out@) =~= saved_rows(saved@.take(0), disks@));
    while i < saved.len()
        invariant
            i <= saved@.len(),
            forall|i: int| 0 <= i < saved@.len() ==> (#[trigger] saved@[i]).among(disks@),
            items_of(out@) == saved_rows(saved@.take(i as int), disks@),
        decreases saved@.len() - i,
    {
        let ghost before = saved_rows(saved@.take(i as int), disks@);
        assert(saved@[i as int].among(disks@));
        add_item(&mut out, Item::with_detail(saved[i].label(), saved[i].detail(disks)));
        i += 1;
        assert(saved_rows(saved@.take(i as int), disks@) =~= before.push(
            item_view(saved@[i - 1].label_text(), saved@[i - 1].detail_lines(disks@)),
        ));
    }
    assert(saved@.take(i as int) =~= saved@);
    out
}

/// What stands above the snapshots.
pub open spec fn saved_intro_lines(n: nat) -> Seq<LineView> {
    seq![
        styled(
            "  "@ + dec(n) + " snapshot(s) in \\"@ + DIR@ + "\\ on the volumes here."@,
            Style::Dim,
        ),
        styled("  A snapshot only fits the disk it was taken from."@, Style::Dim),
    ]
}

/// What stands above the snapshots.
pub fn saved_intro(n: usize) -> (r: Vec<Line>)
    ensures
        shown(r@) == saved_intro_lines(n as nat),
{
    let mut out = no_lines();
    let mut s = "  ".to_owned();
    s.push_str(dec_text(n as u64).as_str());
    s.push_str(" snapshot(s) in \\");
    s.push_str(DIR);
    s.push_str("\\ on the volumes here.");
    add_line(&mut out, dim(s));
    add_line(&mut out, dim("  A snapshot only fits the disk it was taken from."));
    out
}

/// A snapshot looked at before it is chosen.
pub open spec fn look_lines(sv: Saved, disks: Seq<Disk>) -> Seq<LineView> {
    seq![
        styled("  "@ + sv.name@, Style::Key),
        styled("  found on "@ + sv.source@, Style::Dim),
        blank_line(),
    ] + inspection_lines(
        sv.archive@,
        match sv.best {
            Some((i, c)) => Some(("Disk "@ + dec(disks[i as int].number as nat), c)),
            None => None,
        },
    )
}

/// A snapshot looked at before it is chosen.
pub fn look(sv: &Saved, disks: &[Disk]) -> (r: Vec<Line>)
    requires
        sv.among(disks@),
    ensures
        shown(r@) == look_lines(*sv, disks@),
{
    let mut out = no_lines();
    let mut s = "  ".to_owned();
    s.push_str(sv.name.as_str());
    add_line(&mut out, key(s));
    let mut s = "  found on ".to_owned();
    s.push_str(sv.source.as_str());
    add_line(&mut out, dim(s));
    add_line(&mut out, Line::blank());
    let ghost head = shown(out@);
    assert(head =~= seq![
        styled("  "@ + sv.name@, Style::Key),
        styled("  found on "@ + sv.source@, Style::Dim),
        blank_line(),
    ]);
    match &sv.best {
        Some((i, c)) => {
            let mut name = "Disk ".to_owned();
            name.push_str(dec_text(disks[*i].number as u64).as_str());
            add_lines(&mut out, inspect(&sv.archive, Some((name.as_str(), c))));
        },
        None => add_lines(&mut out, inspect(&sv.archive, None)),
    }
    out
}

// --------------------------------------------------------------------- laws

/// How the snapshot compares with disk `i`, where that was read and its
/// geometry fits.
pub open spec fn fitting(a: ArchiveView, disks: Seq<Disk>, i: int) -> Option<Comparison> {
    match disks[i].analysis {
        Ok(t) if a.block_size == t.block_size && a.last_block == t.last_block => Some(
            comparison(a, t),
        ),
        _ => None,
    }
}

/// A snapshot is attributed to some disk exactly if one that was read has its
/// geometry, and then to such a disk, with the comparison made with it.
pub proof fn a_snapshot_is_attributed_where_a_disk_fits(a: ArchiveView, disks: Seq<Disk>, n: nat)
    requires
        n <= disks.len() <= usize::MAX,
    ensures
        best_disk(a, disks, n) is Some <==> exists|i: int|
            0 <= i < n && #[trigger] fitting(a, disks, i) is Some,
        best_disk(a, disks, n) matches Some((i, c)) ==> i < n && fitting(a, disks, i as int)
            == Some(c),
    decreases n,
{
    if n > 0 {
        let m = (n - 1) as nat;
        a_snapshot_is_attributed_where_a_disk_fits(a, disks, m);
        assert(fitting(a, disks, m as int) is Some == (disks[m as int].analysis matches Ok(t)
            && comparison(a, t).conclusion() != Match::DifferentDisk));
        if best_disk(a, disks, m) is Some {
            let i = choose|i: int| 0 <= i < m && #[trigger] fitting(a, disks, i) is Some;
            assert(fitting(a, disks, i) is Some);
        }
    }
}

/// Partitions decide: where a disk carries at least half of a snapshot's
/// partitions, the snapshot is attributed to a disk no other shares more
/// with, and to the first of those.
pub proof fn the_disk_with_its_partitions_is_chosen(
    a: ArchiveView,
    disks: Seq<Disk>,
    n: nat,
    j: int,
)
    requires
        n <= disks.len() <= usize::MAX,
        0 <= j < n,
        fitting(a, disks, j) matches Some(c) && c.archive_partitions > 0 && 2 * c.shared_partitions
            >= c.archive_partitions,
    ensures
        best_disk(a, disks, n) is Some,
        ({
            let (best, c) = best_disk(a, disks, n)->0;
            &&& 2 * c.shared_partitions >= c.archive_partitions
            &&& forall|i: int|
                0 <= i < n ==> (#[trigger] fitting(a, disks, i) matches Some(d)
                    ==> d.shared_partitions <= c.shared_partitions)
            &&& forall|i: int|
                0 <= i < best ==> (#[trigger] fitting(a, disks, i) matches Some(d)
                    ==> d.shared_partitions < c.shared_partitions)
        }),
    decreases n,
{
    let m = (n - 1) as nat;
    a_snapshot_is_attributed_where_a_disk_fits(a, disks, n);
    a_snapshot_is_attributed_where_a_disk_fits(a, disks, m);
    best_is_judged_alike(a, disks, n);
    if exists|i: int|
        0 <= i < m && (#[trigger] fitting(a, disks, i) matches Some(c) && 2 * c.shared_partitions
            >= c.archive_partitions) {
        let i = choose|i: int|
            0 <= i < m && (#[trigger] fitting(a, disks, i) matches Some(c) && 2
                * c.shared_partitions >= c.archive_partitions);
        the_disk_with_its_partitions_is_chosen(a, disks, m, i);
    } else {
        assert(j == m);
    }
}

/// Every comparison of one snapshot counts the same partitions of it, and is
/// taken for the same disk by its GUID or by half of its partitions.
proof fn best_is_judged_alike(a: ArchiveView, disks: Seq<Disk>, n: nat)
    ensures
        forall|i: int, j: int|
            0 <= i < n && 0 <= j < n ==> (#[trigger] fitting(a, disks, i) matches Some(c)
                ==> #[trigger] fitting(a, disks, j) matches Some(d) ==> c.archive_partitions
                == d.archive_partitions),
        forall|i: int|
            0 <= i < n ==> (#[trigger] fitting(a, disks, i) matches Some(c) ==> c.geometry),
{
}

/// This comparison takes the disk for the one the snapshot was made of: by
/// its GUID, or by at least half of its partitions.
pub open spec fn is_own_disk(c: Comparison) -> bool {
    c.disk_guid || (c.archive_partitions > 0 && 2 * c.shared_partitions >= c.archive_partitions)
}

/// A snapshot's own disk is preferred: where a disk is taken for it, and no
/// disk that is not shares more partitions with the snapshot, the snapshot is
/// attributed to a disk that is taken for its own, and no other such disk
/// shares more with it.
///
/// A disk with the snapshot's GUID but few of its partitions does lose to one
/// that has more of them.
pub proof fn its_own_disk_is_preferred(a: ArchiveView, disks: Seq<Disk>, n: nat, j: int)
    requires
        n <= disks.len() <= usize::MAX,
        0 <= j < n,
        fitting(a, disks, j) matches Some(c) && is_own_disk(c),
        forall|i: int, k: int|
            0 <= i < n && 0 <= k < n ==> (#[trigger] fitting(a, disks, i) matches Some(c)
                ==> #[trigger] fitting(a, disks, k) matches Some(d) ==> is_own_disk(c)
                && !is_own_disk(d) ==> d.shared_partitions <= c.shared_partitions),
    ensures
        best_disk(a, disks, n) is Some,
        ({
            let (best, c) = best_disk(a, disks, n)->0;
            &&& is_own_disk(c)
            &&& c.conclusion() == Match::SameDisk
            &&& forall|i: int|
                0 <= i < n ==> (#[trigger] fitting(a, disks, i) matches Some(d)
                    ==> d.shared_partitions <= c.shared_partitions)
        }),
    decreases n,
{
    let m = (n - 1) as nat;
    a_snapshot_is_attributed_where_a_disk_fits(a, disks, n);
    a_snapshot_is_attributed_where_a_disk_fits(a, disks, m);
    best_is_judged_alike(a, disks, n);
    if exists|i: int|
        0 <= i < m && (#[trigger] fitting(a, disks, i) matches Some(c) && is_own_disk(c)) {
        let i = choose|i: int|
            0 <= i < m && (#[trigger] fitting(a, disks, i) matches Some(c) && is_own_disk(c));
        its_own_disk_is_preferred(a, disks, m, i);
    } else {
        assert(j == m);
    }
}

/// Where no disk is taken for a snapshot's own, it is attributed to one that
/// no other shares more with.
pub proof fn without_its_own_disk_the_most_shared_is_chosen(
    a: ArchiveView,
    disks: Seq<Disk>,
    n: nat,
)
    requires
        n <= disks.len() <= usize::MAX,
        forall|i: int|
            0 <= i < n ==> (#[trigger] fitting(a, disks, i) matches Some(c) ==> !is_own_disk(c)),
    ensures
        best_disk(a, disks, n) matches Some((best, c)) ==> c.conclusion() == Match::SameGeometry
            && forall|i: int|
            0 <= i < n ==> (#[trigger] fitting(a, disks, i) matches Some(d) ==> d.shared_partitions
                <= c.shared_partitions),
    decreases n,
{
    if n > 0 {
        let m = (n - 1) as nat;
        a_snapshot_is_attributed_where_a_disk_fits(a, disks, n);
        a_snapshot_is_attributed_where_a_disk_fits(a, disks, m);
        without_its_own_disk_the_most_shared_is_chosen(a, disks, m);
    }
}


/// Every file found on a volume that could be listed is accounted for: one
/// that decodes is offered, under its name and its volume, and of any other
/// it is said what is wrong with it.
pub proof fn every_file_is_offered_or_explained(
    looked: Seq<Looked>,
    n: nat,
    v: int,
    files: Vec<File>,
    f: int,
)
    requires
        0 <= v < n <= looked.len(),
        looked[v].files == Ok::<Vec<File>, String>(files),
        0 <= f < files@.len(),
    ensures
        files@[f].data matches Ok(data) ==> (backup::file_says(data@) matches Ok(a) ==> gpts_found(
            looked,
            n,
        ).contains(
            (SavedView { name: files@[f].name@, source: looked[v].volume@, archive: a, best: None }),
        )),
        files@[f].data matches Ok(data) ==> (backup::file_says(data@) matches Err(e)
            ==> gpts_rejected(looked, n).contains(
            styled(
                "  "@ + files@[f].name@ + " on "@ + looked[v].volume@ + " - "@ + e.message(),
                Style::Bad,
            ),
        )),
        files@[f].data matches Err(e) ==> gpts_rejected(looked, n).contains(
            styled(
                "  "@ + files@[f].name@ + " on "@ + looked[v].volume@ + " - "@ + e@,
                Style::Bad,
            ),
        ),
    decreases n,
{
    if v < n - 1 {
        every_file_is_offered_or_explained(looked, (n - 1) as nat, v, files, f);
        if let Ok(more) = looked[n - 1].files {
            let volume = looked[n - 1].volume@;
            let a = gpts_found(looked, (n - 1) as nat);
            let b = gpts_among(more@, volume, more@.len());
            assert forall|x: SavedView| a.contains(x) implies (a + b).contains(x) by {
                let i = choose|i: int| 0 <= i < a.len() && a[i] == x;
                assert((a + b)[i] == x);
            }
            let c = gpts_rejected(looked, (n - 1) as nat);
            let d = bad_gpts_among(more@, volume, more@.len());
            assert forall|x: LineView| c.contains(x) implies (c + d).contains(x) by {
                in_either(c, d, x);
            }
        } else if let Err(e) = looked[n - 1].files {
            let c = gpts_rejected(looked, (n - 1) as nat);
            let y = unlisted_line(looked[n - 1].volume@, e@);
            assert forall|x: LineView| c.contains(x) implies c.push(y).contains(x) by {
                in_pushed(c, y, x);
            }
        }
    } else {
        let volume = looked[v].volume@;
        let a = gpts_found(looked, (n - 1) as nat);
        let b = gpts_among(files@, volume, files@.len());
        let c = gpts_rejected(looked, (n - 1) as nat);
        let d = bad_gpts_among(files@, volume, files@.len());
        a_file_is_among_them(files@, volume, files@.len(), f);
        assert forall|x: SavedView| b.contains(x) implies (a + b).contains(x) by {
            let i = choose|i: int| 0 <= i < b.len() && b[i] == x;
            assert((a + b)[a.len() + i] == x);
        }
        assert forall|x: LineView| d.contains(x) implies (c + d).contains(x) by {
            in_either(c, d, x);
        }
    }
}

proof fn a_file_is_among_them(files: Seq<File>, volume: Seq<char>, n: nat, f: int)
    requires
        0 <= f < n <= files.len(),
    ensures
        gpt_in(files[f]) matches Ok(archive) ==> gpts_among(files, volume, n).contains(
            (SavedView { name: files[f].name@, source: volume, archive, best: None }),
        ),
        gpt_in(files[f]) matches Err(e) ==> bad_gpts_among(files, volume, n).contains(
            rejected_line(files[f].name@, volume, e),
        ),
    decreases n,
{
    let a = gpts_among(files, volume, (n - 1) as nat);
    let c = bad_gpts_among(files, volume, (n - 1) as nat);
    if f < n - 1 {
        a_file_is_among_them(files, volume, (n - 1) as nat, f);
        match gpt_in(files[n - 1]) {
            Ok(archive) => {
                let y = SavedView { name: files[n - 1].name@, source: volume, archive, best: None };
                assert forall|x: SavedView| a.contains(x) implies a.push(y).contains(x) by {
                    let i = choose|i: int| 0 <= i < a.len() && a[i] == x;
                    assert(a.push(y)[i] == x);
                }
            },
            Err(e) => {
                let y = rejected_line(files[n - 1].name@, volume, e);
                assert forall|x: LineView| c.contains(x) implies c.push(y).contains(x) by {
                    in_pushed(c, y, x);
                }
            },
        }
    } else {
        match gpt_in(files[f]) {
            Ok(archive) => {
                let y = SavedView { name: files[f].name@, source: volume, archive, best: None };
                assert(a.push(y)[a.len() as int] == y);
            },
            Err(e) => {
                let y = rejected_line(files[f].name@, volume, e);
                in_pushed(c, y, y);
            },
        }
    }
}

/// Only what decodes is offered: every snapshot on the list is what some file
/// on some volume says, under that file's name and that volume.
pub proof fn only_what_decodes_is_offered(looked: Seq<Looked>, n: nat, i: int) -> (place: (int, int))
    requires
        n <= looked.len(),
        0 <= i < gpts_found(looked, n).len(),
    ensures
        0 <= place.0 < n,
        looked[place.0].files is Ok,
        0 <= place.1 < looked[place.0].files->Ok_0@.len(),
        looked[place.0].files->Ok_0@[place.1].data is Ok,
        backup::file_says(looked[place.0].files->Ok_0@[place.1].data->Ok_0@) == Ok::<
            ArchiveView,
            backup::DecodeError,
        >(gpts_found(looked, n)[i].archive),
        gpts_found(looked, n)[i].name == looked[place.0].files->Ok_0@[place.1].name@,
        gpts_found(looked, n)[i].source == looked[place.0].volume@,
    decreases n,
{
    let before = gpts_found(looked, (n - 1) as nat);
    if i < before.len() {
        only_what_decodes_is_offered(looked, (n - 1) as nat, i)
    } else {
        let files = looked[n - 1].files->Ok_0;
        let f = an_offered_file_decodes(
            files@,
            looked[n - 1].volume@,
            files@.len(),
            i - before.len(),
        );
        (n - 1, f)
    }
}

proof fn an_offered_file_decodes(files: Seq<File>, volume: Seq<char>, n: nat, i: int) -> (f: int)
    requires
        n <= files.len(),
        0 <= i < gpts_among(files, volume, n).len(),
    ensures
        0 <= f < n,
        gpt_in(files[f]) == Ok::<ArchiveView, Seq<char>>(gpts_among(files, volume, n)[i].archive),
        gpts_among(files, volume, n)[i].name == files[f].name@,
        gpts_among(files, volume, n)[i].source == volume,
    decreases n,
{
    if i < gpts_among(files, volume, (n - 1) as nat).len() {
        an_offered_file_decodes(files, volume, (n - 1) as nat, i)
    } else {
        n - 1
    }
}

/// A volume that could not be listed is named, with the reason.
pub proof fn every_unlisted_volume_is_named(looked: Seq<Looked>, n: nat, v: int, why: String)
    requires
        0 <= v < n <= looked.len(),
        looked[v].files == Err::<Vec<File>, String>(why),
    ensures
        gpts_rejected(looked, n).contains(
            styled("  "@ + looked[v].volume@ + " - "@ + why@, Style::Bad),
        ),
    decreases n,
{
    let x = unlisted_line(looked[v].volume@, why@);
    let c = gpts_rejected(looked, (n - 1) as nat);
    if v < n - 1 {
        every_unlisted_volume_is_named(looked, (n - 1) as nat, v, why);
    }
    match looked[n - 1].files {
        Ok(more) => in_either(c, bad_gpts_among(more@, looked[n - 1].volume@, more@.len()), x),
        Err(e) => in_pushed(c, unlisted_line(looked[n - 1].volume@, e@), x),
    }
}

/// The operator is told first that the files may be out of reach, then what
/// could not be used, and is offered a choice only where there is one.
pub proof fn a_restore_starts_with_what_is_there(
    esp_lost: bool,
    warned: Option<bool>,
    usable: usize,
    unusable: Seq<LineView>,
)
    ensures
        esp_lost ==> opening(esp_lost, None, Some((usable, unusable))) is WarnEsp,
        esp_lost ==> opening(esp_lost, Some(false), Some((usable, unusable))) is Done,
        !esp_lost || warned == Some(true) ==> opening(esp_lost, warned, None) is Load,
        !esp_lost || warned == Some(true) ==> {
            &&& usable == 0 <==> opening(esp_lost, warned, Some((usable, unusable))) is Nothing
            &&& usable > 0 && unusable.len() == 0 <==> opening(
                esp_lost,
                warned,
                Some((usable, unusable)),
            ) is Offer
            &&& usable > 0 && unusable.len() > 0 <==> opening(
                esp_lost,
                warned,
                Some((usable, unusable)),
            ) is Note
        },
{
}


/// Every snapshot has its row: the disk it most likely belongs to, where it
/// was found and which disk it was taken of.
pub proof fn every_snapshot_has_a_row(saved: Seq<Saved>, disks: Seq<Disk>, i: int)
    requires
        0 <= i < saved.len(),
    ensures
        ({
            let rows = saved_rows(saved, disks);
            let sv = saved[i];
            &&& rows.len() == saved.len()
            &&& rows[i].selectable
            &&& sv.best matches Some((d, c)) ==> rows[i].detail[0].text == "  Belongs to: Disk "@
                + dec(disks[d as int].number as nat) + " - "@ + c.evidence()
            &&& sv.best is None ==> rows[i].detail[0] == styled(
                "  Belongs to: no disk here that it fits"@,
                Style::Bad,
            )
            &&& rows[i].detail[1].text == "  found on "@ + sv.source@
            &&& rows[i].detail[2].text == "  disk GUID "@ + guid_text(sv.archive@.disk_guid)
        }),
{
}

} // verus!
