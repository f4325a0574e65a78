//! Where the tool keeps its own files.
//!
//! The default is the volume this image was launched from, the ESP, because
//! that is the one place guaranteed to exist in the scenario this tool is
//! for: no keyboard, no USB stick, the machine will not boot. A backup
//! stored somewhere the operator cannot reach is not a backup.
//!
//! That guarantee is also the limit of it. An ESP on the disk being backed
//! up is not independent storage, so when removable media is attached it is
//! offered as a second destination and the ESP becomes the default rather
//! than the only choice.

use crate::backup;
use crate::bootcfg;
use crate::names::{
    folds, highest, made_name_reads_back, name_after, next_number_is_new, same_fold,
    sequence_of_text,
};
use crate::order::{in_order, is_order, sorted_names, sorted_order};
use crate::pages::{add_item, item_view, items_of, no_items, Item, ItemView};
use crate::report::{human, human_size};
use crate::style::{
    add_line, add_lines, bad, blank_line, dim, key, no_lines, shown, styled, warn, wrapped_lines,
    Line, LineView, Style,
};
use crate::text::{
    content_of, dec, dec_text, strings_of, trim, trimmed_end, trimmed_start,
};
use crate::ui::{wrapped, writable_width};
use vstd::prelude::*;
use vstd::utf8::encode_utf8;

verus! {

/// Where backups live, relative to the root of a volume.
pub const DIR: &'static str = "BOOTFIXR";

/// What the launch volume is called on screen.
///
/// Lower case because it is read in the middle of a sentence as often as at
/// the start of a line: "on the ESP this program was launched from".
pub const BOOT_VOLUME: &'static str = "the ESP this program was launched from";

/// A volume the tool can keep files on.
pub struct Volume {
    /// What the operator is told they are choosing.
    pub name: String,
    /// Its device path, which is what tells two identical sticks apart.
    pub path: String,
    /// Bytes free, when the filesystem would say.
    pub free: Option<u64>,
    pub removable: bool,
}

impl Volume {
    /// The volume this image was launched from.
    pub fn boot(path: String, free: Option<u64>, removable: bool) -> (r: Self)
        ensures
            r.name@ == BOOT_VOLUME@,
            r.path == path,
            r.free == free,
            r.removable == removable,
    {
        Volume { name: BOOT_VOLUME.to_owned(), path, free, removable }
    }
}

/// What the file system says of itself: its label and its free space, each
/// where there is one, and nothing where it is mounted read-only.
pub open spec fn label_of(read_only: bool, label: Seq<char>, free: u64) -> Result<
    (Option<Seq<char>>, Option<u64>),
    Seq<char>,
> {
    let text = trimmed_end(trimmed_start(label));
    if read_only {
        Err("mounted read-only"@)
    } else if text.len() == 0 {
        Ok((None, Some(free)))
    } else {
        Ok((Some(text), Some(free)))
    }
}

/// What a volume said of itself, as a value.
pub open spec fn info_view(r: Result<(Option<String>, Option<u64>), String>) -> Result<
    (Option<Seq<char>>, Option<u64>),
    Seq<char>,
> {
    match r {
        Ok((label, free)) => Ok((content_of(label), free)),
        Err(e) => Err(e@),
    }
}

/// What the file system says of itself.
///
/// A destination that cannot be written is refused while the choice is being
/// offered, which beats finding out after the operator has made it.
pub fn volume_info(read_only: bool, label: &str, free: u64) -> (r: Result<
    (Option<String>, Option<u64>),
    String,
>)
    ensures
        info_view(r) == label_of(read_only, label@, free),
{
    if read_only {
        return Err("mounted read-only".to_owned());
    }
    let text = trim(label);
    if text.as_str().is_empty() {
        Ok((None, Some(free)))
    } else {
        Ok((Some(text), Some(free)))
    }
}

// ----------------------------------------------------------- removable media

/// One file system the firmware can see.
pub struct Attached {
    /// The volume this image was launched from.
    pub launch: bool,
    pub removable: bool,
    pub present: bool,
    pub read_only: bool,
    pub path: String,
    /// What it says of itself, see [`volume_info`], or why it could not be
    /// opened.
    pub info: Result<(Option<String>, Option<u64>), String>,
}

/// A backup could be written to it.
///
/// Not "every removable ESP": a stick formatted by whatever was to hand is
/// exactly what somebody has in a drawer. The launch volume stays out even
/// when it is itself removable: it is offered already, and listing it twice
/// would write two numbered copies of one snapshot into one directory.
pub open spec fn writable_stick(a: Attached) -> bool {
    !a.launch && a.removable && a.present && !a.read_only && a.info is Ok
}

/// Where the ones a backup could be written to stand among the first `n`.
pub open spec fn sticks(found: Seq<Attached>, n: nat) -> Seq<usize>
    decreases n,
{
    if n == 0 {
        Seq::empty()
    } else {
        let rest = sticks(found, (n - 1) as nat);
        if writable_stick(found[n - 1]) {
            rest.push((n - 1) as usize)
        } else {
            rest
        }
    }
}

/// The label of a volume, empty where it has none.
pub open spec fn stick_label(a: Attached) -> Seq<char> {
    match a.info {
        Ok((Some(label), _)) => label@,
        _ => Seq::empty(),
    }
}

/// How many of the first `n` of these have no label.
pub open spec fn unlabelled(found: Seq<Attached>, list: Seq<usize>, n: nat) -> nat
    decreases n,
{
    if n == 0 {
        0
    } else {
        let rest = unlabelled(found, list, (n - 1) as nat);
        if stick_label(found[list[n - 1] as int]).len() == 0 {
            rest + 1
        } else {
            rest
        }
    }
}

/// What the `k`th of these is called: by its label, or by a number that runs
/// the way the list does. Two unlabelled sticks would otherwise be two
/// identical rows.
pub open spec fn stick_name(found: Seq<Attached>, list: Seq<usize>, k: int) -> Seq<char> {
    let label = stick_label(found[list[k] as int]);
    if label.len() == 0 {
        "Removable volume "@ + dec(unlabelled(found, list, (k + 1) as nat))
    } else {
        label
    }
}

/// The paths of these.
pub open spec fn stick_paths(found: Seq<Attached>, list: Seq<usize>) -> Seq<Seq<char>> {
    Seq::new(list.len(), |i: int| found[list[i] as int].path@)
}

/// `list` is where the writable ones stand, by their paths.
pub open spec fn lists_sticks(found: Seq<Attached>, list: Seq<usize>) -> bool {
    let all = sticks(found, found.len());
    exists|p: Seq<usize>|
        #[trigger] is_order(stick_paths(found, all), p) && list == Seq::new(
            p.len(),
            |i: int| all[p[i] as int],
        )
}

proof fn sticks_are_found(found: Seq<Attached>, n: nat)
    requires
        n <= found.len(),
        found.len() <= usize::MAX,
    ensures
        sticks(found, n).len() <= n,
        forall|i: int|
            0 <= i < sticks(found, n).len() ==> (#[trigger] sticks(found, n)[i]) < n
                && writable_stick(found[sticks(found, n)[i] as int]),
    decreases n,
{
    if n > 0 {
        sticks_are_found(found, (n - 1) as nat);
    }
}

fn is_writable_stick(a: &Attached) -> (r: bool)
    ensures
        r == writable_stick(*a),
{
    !a.launch && a.removable && a.present && !a.read_only && a.info.is_ok()
}

/// Where the volumes a backup could be written to stand, by their paths.
fn list_sticks(found: &[Attached]) -> (r: Vec<usize>)
    ensures
        lists_sticks(found@, r@),
        forall|i: int|
            0 <= i < r@.len() ==> (#[trigger] r@[i]) < found@.len() && writable_stick(
                found@[r@[i] as int],
            ),
        r@.len() <= found@.len(),
{
    let mut all: Vec<usize> = Vec::new();
    let mut paths: Vec<String> = Vec::new();
    let mut i: usize = 0;
    assert(found.len() == found@.len());
    while i < found.len()
        invariant
            i <= found@.len(),
            found@.len() <= usize::MAX,
            all@ == sticks(found@, i as nat),
            paths@.len() == all@.len(),
            forall|j: int|
                0 <= j < all@.len() ==> (#[trigger] paths@[j])@ == found@[all@[j] as int].path@,
        decreases found@.len() - i,
    {
        if is_writable_stick(&found[i]) {
            all.push(i);
            paths.push(found[i].path.clone());
        }
        i += 1;
    }
    proof {
        sticks_are_found(found@, found@.len());
    }
    assert(strings_of(paths@) =~= stick_paths(found@, all@));
    let p = sorted_order(paths.as_slice());
    let mut out: Vec<usize> = Vec::new();
    let mut i: usize = 0;
    while i < p.len()
        invariant
            i <= p@.len(),
            out@.len() == i,
            p@.len() == all@.len(),
            all@.len() <= found@.len(),
            forall|j: int| 0 <= j < p@.len() ==> (#[trigger] p@[j]) < all@.len(),
            forall|j: int|
                0 <= j < all@.len() ==> (#[trigger] all@[j]) < found@.len() && writable_stick(
                    found@[all@[j] as int],
                ),
            forall|j: int| 0 <= j < i ==> (#[trigger] out@[j]) == all@[p@[j] as int],
        decreases p@.len() - i,
    {
        out.push(all[p[i]]);
        i += 1;
    }
    assert(out@ =~= Seq::new(p@.len(), |i: int| all@[p@[i] as int]));
    assert(is_order(stick_paths(found@, all@), p@));
    out
}

/// Every removable volume a backup could be written to, and where each
/// stands among those found.
pub fn removable(found: &[Attached]) -> (r: Vec<(usize, Volume)>)
    ensures
        lists_sticks(found@, Seq::new(r@.len(), |i: int| r@[i].0)),
        forall|i: int|
            0 <= i < r@.len() ==> (#[trigger] r@[i]).0 < found@.len() && r@[i].1.name@
                == stick_name(found@, Seq::new(r@.len(), |i: int| r@[i].0), i) && r@[i].1.path@
                == found@[r@[i].0 as int].path@ && r@[i].1.free == (
            found@[r@[i].0 as int].info->Ok_0).1 && r@[i].1.removable,
{
    let list = list_sticks(found);
    let mut out: Vec<(usize, Volume)> = Vec::new();
    let mut count: u64 = 0;
    let mut i: usize = 0;
    assert(list.len() == list@.len());
    while i < list.len()
        invariant
            i <= list@.len(),
            list@.len() <= usize::MAX,
            out@.len() == i,
            count <= i,
            count == unlabelled(found@, list@, i as nat),
            forall|j: int|
                0 <= j < list@.len() ==> (#[trigger] list@[j]) < found@.len() && writable_stick(
                    found@[list@[j] as int],
                ),
            forall|j: int|
                0 <= j < i ==> (#[trigger] out@[j]).0 == list@[j] && out@[j].1.name@ == stick_name(
                    found@,
                    list@,
                    j,
                ) && out@[j].1.path@ == found@[list@[j] as int].path@ && out@[j].1.free == (
                found@[list@[j] as int].info->Ok_0).1 && out@[j].1.removable,
        decreases list@.len() - i,
    {
        let at: usize = list[i];
        let a = &found[at];
        let mut name = String::new();
        let mut free: Option<u64> = None;
        if let Ok((label, room)) = &a.info {
            if let Some(text) = label {
                name = text.clone();
            }
            free = *room;
        }
        assert(name@ =~= stick_label(found@[list@[i as int] as int]));
        if name.as_str().is_empty() {
            count += 1;
            name = "Removable volume ".to_owned();
            name.push_str(dec_text(count).as_str());
        }
        out.push((at, Volume { name, path: a.path.clone(), free, removable: true }));
        i += 1;
    }
    assert(Seq::new(out@.len(), |i: int| out@[i].0) =~= list@);
    out
}

// ------------------------------------------------------------------ listing

/// One name in the backup directory.
pub struct Entry {
    pub name: String,
    pub directory: bool,
}

/// What a listing is asked for.
#[derive(Clone, Copy, PartialEq, Eq, Structural, Debug)]
pub enum Kind {
    /// Partition table snapshots.
    Gpt,
    /// Boot configuration snapshots.
    Boot,
}

/// A name is one of this kind.
///
/// The two kinds share a directory and nothing else: a picker offering to
/// write a boot snapshot onto a disk, or a partition table into NVRAM, would
/// be a picker with a bug in it.
pub open spec fn of_kind(name: Seq<char>, kind: Kind) -> bool {
    match kind {
        Kind::Gpt => sequence_of_text(name, "gpt."@, ""@) is Some,
        Kind::Boot => sequence_of_text(name, "boot."@, ""@) is Some,
    }
}

/// The names of this kind among the first `n`, whatever is a directory left
/// out.
pub open spec fn files_of_kind(entries: Seq<Entry>, kind: Kind, n: nat) -> Seq<Seq<char>>
    decreases n,
{
    if n == 0 {
        Seq::empty()
    } else {
        let rest = files_of_kind(entries, kind, (n - 1) as nat);
        let e = entries[n - 1];
        if !e.directory && of_kind(e.name@, kind) {
            rest.push(e.name@)
        } else {
            rest
        }
    }
}

/// The snapshots of this kind in a directory, sorted by name.
pub fn list(entries: &[Entry], kind: Kind) -> (r: Vec<String>)
    ensures
        in_order(files_of_kind(entries@, kind, entries@.len()), strings_of(r@)),
{
    let mut names: Vec<String> = Vec::new();
    let mut i: usize = 0;
    assert(strings_of(names@) =~= files_of_kind(entries@, kind, 0));
    while i < entries.len()
        invariant
            i <= entries@.len(),
            strings_of(names@) == files_of_kind(entries@, kind, i as nat),
        decreases entries@.len() - i,
    {
        let name = entries[i].name.as_str();
        let wanted = match kind {
            Kind::Gpt => backup::sequence_of(name).is_some(),
            Kind::Boot => bootcfg::sequence_of(name).is_some(),
        };
        let ghost before = strings_of(names@);
        if !entries[i].directory && wanted {
            names.push(entries[i].name.clone());
            assert(strings_of(names@) =~= before.push(entries@[i as int].name@));
        }
        i += 1;
    }
    sorted_names(names.as_slice())
}

/// Every name in use, directories with the rest.
pub open spec fn names_in_use(entries: Seq<Entry>) -> Seq<Seq<char>> {
    Seq::new(entries.len(), |i: int| entries[i].name@)
}

/// Every name in the backup directory, sorted.
///
/// A name that is present but unreadable still counts as taken, which is the
/// whole point of numbering from a directory listing rather than from a
/// counter. So does a directory: a name is decided to be free by asking the
/// firmware to open it, and a directory opens.
pub fn names(entries: &[Entry]) -> (r: Vec<String>)
    ensures
        in_order(names_in_use(entries@), strings_of(r@)),
{
    let mut all: Vec<String> = Vec::new();
    let mut i: usize = 0;
    while i < entries.len()
        invariant
            i <= entries@.len(),
            all@.len() == i,
            forall|j: int| 0 <= j < i ==> (#[trigger] all@[j])@ == entries@[j].name@,
        decreases entries@.len() - i,
    {
        all.push(entries[i].name.clone());
        i += 1;
    }
    assert(strings_of(all@) =~= names_in_use(entries@));
    sorted_names(all.as_slice())
}

/// A name that may hold a saved table, whichever build wrote it: `gpt.NNN`
/// is what is written now, `*.bin` what was written before, and a snapshot
/// must not become invisible because the naming scheme moved on.
pub open spec fn may_hold_table(name: Seq<char>) -> bool {
    let b = encode_utf8(name);
    ||| b.len() >= 4 && same_fold(b.take(4), encode_utf8("gpt."@))
    ||| b.len() >= 4 && same_fold(b.skip(b.len() - 4), encode_utf8(".bin"@))
}

/// Whether a name may hold a saved table, whichever build wrote it.
pub fn is_table_file(name: &str) -> (r: bool)
    ensures
        r == may_hold_table(name@),
{
    let b = name.as_bytes();
    if b.len() < 4 {
        return false;
    }
    let head = &b[0..4];
    let tail = &b[b.len() - 4..b.len()];
    assert(head@ =~= b@.take(4));
    assert(tail@ =~= b@.skip(b@.len() - 4));
    folds(head, "gpt.".as_bytes()) || folds(tail, ".bin".as_bytes())
}

/// The names among the first `n` that may hold a saved table, whatever is a
/// directory left out.
pub open spec fn table_files(entries: Seq<Entry>, n: nat) -> Seq<Seq<char>>
    decreases n,
{
    if n == 0 {
        Seq::empty()
    } else {
        let rest = table_files(entries, (n - 1) as nat);
        let e = entries[n - 1];
        if !e.directory && may_hold_table(e.name@) {
            rest.push(e.name@)
        } else {
            rest
        }
    }
}

/// Every file that may hold a saved table, whichever build wrote it, sorted
/// by name.
pub fn list_tables(entries: &[Entry]) -> (r: Vec<String>)
    ensures
        in_order(table_files(entries@, entries@.len()), strings_of(r@)),
{
    let mut names: Vec<String> = Vec::new();
    let mut i: usize = 0;
    assert(strings_of(names@) =~= table_files(entries@, 0));
    while i < entries.len()
        invariant
            i <= entries@.len(),
            strings_of(names@) == table_files(entries@, i as nat),
        decreases entries@.len() - i,
    {
        let ghost before = strings_of(names@);
        if !entries[i].directory && is_table_file(entries[i].name.as_str()) {
            names.push(entries[i].name.clone());
            assert(strings_of(names@) =~= before.push(entries@[i as int].name@));
        }
        i += 1;
    }
    sorted_names(names.as_slice())
}

/// The largest file worth reading into memory as a snapshot.
///
/// Two orders of magnitude above what this tool writes. It exists because
/// the listing sweeps removable media the operator keeps their own files on,
/// and an allocation the firmware refuses is not a rejection line.
pub const MAX_FILE: u64 = 4_194_304;

/// How many files are worth holding at once.
pub const MAX_FILES: usize = 64;

/// How many bytes of them.
pub const MAX_TOTAL: usize = 16_777_216;

/// What is said of a file past either bound.
pub open spec fn unread_text() -> Seq<char> {
    "not read: \\"@ + DIR@ + "\\ holds more than "@ + dec(MAX_FILES as nat) + " files or "@ + dec(
        16,
    ) + " MiB of them"@
}

/// Whether the `i`th file is read, after this many bytes of those before it.
///
/// A file past either bound is still listed, with the reason in place of its
/// contents, so the screen says what it skipped and the name still counts as
/// taken.
pub fn check_listing(i: usize, total: usize) -> (r: Result<(), String>)
    ensures
        r is Ok == (i < MAX_FILES && total < MAX_TOTAL),
        r matches Err(e) ==> e@ == unread_text(),
{
    if i < MAX_FILES && total < MAX_TOTAL {
        return Ok(());
    }
    let mut s = "not read: \\".to_owned();
    s.push_str(DIR);
    s.push_str("\\ holds more than ");
    s.push_str(dec_text(MAX_FILES as u64).as_str());
    s.push_str(" files or ");
    s.push_str(dec_text(16).as_str());
    s.push_str(" MiB of them");
    Err(s)
}

/// Whether a file of this size is read.
pub fn check_size(size: u64) -> (r: Result<(), String>)
    ensures
        r is Ok == (size <= MAX_FILE),
        r matches Err(e) ==> e@ == dec(size as nat) + " bytes; too large to be a snapshot"@,
{
    if size <= MAX_FILE {
        return Ok(());
    }
    let mut s = dec_text(size);
    s.push_str(" bytes; too large to be a snapshot");
    Err(s)
}

// ------------------------------------------------------- where the files go

/// One volume, for a list the operator reads.
pub open spec fn volume_rows(v: Volume, cols: usize) -> Seq<LineView> {
    let head = seq![styled("    "@ + v.name@, Style::Key)];
    let room = match v.free {
        Some(free) => head.push(styled("      "@ + human(free) + " free"@, Style::Dim)),
        None => head,
    };
    room + wrapped_lines(
        "      "@ + v.path@,
        writable_width(cols as int) as nat,
        Style::Dim,
        "        "@,
    )
}

/// One volume, for a list the operator reads: what it is called, how much
/// room is left on it, and where it is attached.
pub fn volume_lines(v: &Volume, cols: usize) -> (r: Vec<Line>)
    ensures
        shown(r@) == volume_rows(*v, cols),
{
    let mut out = no_lines();
    let mut s = "    ".to_owned();
    s.push_str(v.name.as_str());
    add_line(&mut out, key(s));
    if let Some(free) = v.free {
        let mut s = "      ".to_owned();
        s.push_str(human_size(free).as_str());
        s.push_str(" free");
        add_line(&mut out, dim(s));
    }
    let mut path = "      ".to_owned();
    path.push_str(v.path.as_str());
    add_lines(&mut out, wrapped(path.as_str(), Style::Dim, "        ", cols));
    assert(shown(out@) =~= volume_rows(*v, cols));
    out
}

/// Where a snapshot goes.
#[derive(Clone, Copy, PartialEq, Eq, Structural, Debug)]
pub enum Dest {
    Both,
    Esp,
    Removable,
}

/// The volumes a snapshot is written to: the launch volume, and one of the
/// removable ones.
#[derive(Clone, Copy, PartialEq, Eq, Structural, Debug)]
pub struct Places {
    pub launch: bool,
    pub stick: Option<usize>,
}

/// What comes next in choosing where a snapshot goes.
pub enum Choosing {
    /// Ask which removable volume is meant.
    Which { intro: Vec<Line>, items: Vec<Item> },
    /// Ask where to write, one of the rows of [`destination_rows`].
    Where { intro: Vec<Line>, items: Vec<Item> },
    Chosen(Places),
    /// The operator backed out, and nothing is to be written.
    BackedOut,
}

/// [`Choosing`] as a value.
pub enum ChoosingView {
    Which { intro: Seq<LineView>, items: Seq<ItemView> },
    Where { intro: Seq<LineView>, items: Seq<ItemView> },
    Chosen(Places),
    BackedOut,
}

impl View for Choosing {
    type V = ChoosingView;

    open spec fn view(&self) -> ChoosingView {
        match self {
            Choosing::Which { intro, items } => ChoosingView::Which {
                intro: shown(intro@),
                items: items_of(items@),
            },
            Choosing::Where { intro, items } => ChoosingView::Where {
                intro: shown(intro@),
                items: items_of(items@),
            },
            Choosing::Chosen(p) => ChoosingView::Chosen(*p),
            Choosing::BackedOut => ChoosingView::BackedOut,
        }
    }
}

/// The removable volumes as rows.
pub open spec fn stick_rows(removable: Seq<Volume>, cols: usize) -> Seq<ItemView> {
    Seq::new(
        removable.len(),
        |i: int| item_view(removable[i].name@, volume_rows(removable[i], cols)),
    )
}

fn stick_items(removable: &[Volume], cols: usize) -> (r: Vec<Item>)
    ensures
        items_of(r@) == stick_rows(removable@, cols),
{
    let mut out = no_items();
    let mut i: usize = 0;
    assert(items_of(out@) =~= stick_rows(removable@.take(0), cols));
    while i < removable.len()
        invariant
            i <= removable@.len(),
            items_of(out@) == stick_rows(removable@.take(i as int), cols),
        decreases removable@.len() - i,
    {
        let ghost before = stick_rows(removable@.take(i as int), cols);
        add_item(
            &mut out,
            Item::with_detail(removable[i].name.clone(), volume_lines(&removable[i], cols)),
        );
        i += 1;
        assert(stick_rows(removable@.take(i as int), cols) =~= before.push(
            item_view(removable@[i - 1].name@, volume_rows(removable@[i - 1], cols)),
        ));
    }
    assert(removable@.take(i as int) =~= removable@);
    out
}

/// A row's help: each line indented, and dim.
pub open spec fn help_lines(texts: Seq<Seq<char>>) -> Seq<LineView> {
    Seq::new(texts.len(), |i: int| styled("  "@ + texts[i], Style::Dim))
}

/// The row for a destination.
pub open spec fn destination_row(d: Dest, stick: Seq<char>) -> ItemView {
    match d {
        Dest::Both => item_view(
            "Save to both"@,
            help_lines(
                seq![
                    "One copy on the ESP, one on "@ + stick + "."@,
                    "The ESP copy is the one this program can always find"@,
                    "again; the other one survives the disk."@,
                ],
            ),
        ),
        Dest::Esp => item_view(
            "Save to the ESP only"@,
            help_lines(
                seq!["Write it next to this program, as earlier versions"@, "always did."@],
            ),
        ),
        Dest::Removable => item_view(
            "Save to "@ + stick + " only"@,
            help_lines(
                seq![
                    "Write it to "@ + stick + " and nowhere else."@,
                    "Nothing is written to the ESP."@,
                ],
            ),
        ),
    }
}

/// The destination each row stands for.
pub open spec fn dest_of_row(row: int) -> Dest {
    if row == 0 {
        Dest::Both
    } else if row == 1 {
        Dest::Esp
    } else {
        Dest::Removable
    }
}

/// The rows a destination is chosen from. They name the volume: "Save to
/// SD_CARD only" is a choice, "Save to the removable volume only" is a thing
/// to work out.
pub open spec fn destination_rows(stick: Seq<char>) -> Seq<ItemView> {
    Seq::new(3, |i: int| destination_row(dest_of_row(i), stick))
}

fn destination_items(stick: &str) -> (r: Vec<Item>)
    ensures
        items_of(r@) == destination_rows(stick@),
{
    let mut both = no_lines();
    let mut s = "  ".to_owned();
    let mut t = "One copy on the ESP, one on ".to_owned();
    t.push_str(stick);
    t.push_str(".");
    s.push_str(t.as_str());
    add_line(&mut both, dim(s));
    add_help(&mut both, "The ESP copy is the one this program can always find");
    add_help(&mut both, "again; the other one survives the disk.");
    assert(shown(both@) =~= destination_row(Dest::Both, stick@).detail);
    let mut esp = no_lines();
    add_help(&mut esp, "Write it next to this program, as earlier versions");
    add_help(&mut esp, "always did.");
    assert(shown(esp@) =~= destination_row(Dest::Esp, stick@).detail);
    let mut only = no_lines();
    let mut s = "  ".to_owned();
    let mut t = "Write it to ".to_owned();
    t.push_str(stick);
    t.push_str(" and nowhere else.");
    s.push_str(t.as_str());
    add_line(&mut only, dim(s));
    add_help(&mut only, "Nothing is written to the ESP.");
    assert(shown(only@) =~= destination_row(Dest::Removable, stick@).detail);
    let mut label = "Save to ".to_owned();
    label.push_str(stick);
    label.push_str(" only");
    let mut out = no_items();
    add_item(&mut out, Item::with_detail("Save to both".to_owned(), both));
    add_item(&mut out, Item::with_detail("Save to the ESP only".to_owned(), esp));
    add_item(&mut out, Item::with_detail(label, only));
    assert(items_of(out@) =~= destination_rows(stick@));
    out
}

/// Add a line of help.
pub(crate) fn add_help(out: &mut Vec<Line>, text: &str)
    ensures
        shown(final(out)@) == shown(old(out)@).push(styled("  "@ + text@, Style::Dim)),
{
    let mut s = "  ".to_owned();
    s.push_str(text);
    add_line(out, dim(s));
}

/// What stands above the removable volumes.
pub open spec fn which_intro() -> Seq<LineView> {
    seq![
        styled("  More than one removable volume is attached."@, Style::Dim),
        styled("  A snapshot can go to one of them, not to all."@, Style::Dim),
    ]
}

/// What stands above the destinations.
pub open spec fn where_intro() -> Seq<LineView> {
    seq![
        styled("  Removable media is attached, so a copy can be kept"@, Style::Dim),
        styled("  somewhere other than this machine's own disk."@, Style::Dim),
    ]
}

/// What comes next in choosing where a snapshot goes, after these answers: a
/// row each, or `None` where the operator backed out.
pub open spec fn choosing(removable: Seq<Volume>, answers: Seq<Option<usize>>, cols: usize) ->
    ChoosingView {
    let asked: int = if removable.len() > 1 {
        1
    } else {
        0
    };
    if removable.len() == 0 {
        ChoosingView::Chosen(Places { launch: true, stick: None })
    } else if answers.len() < asked {
        ChoosingView::Which { intro: which_intro(), items: stick_rows(removable, cols) }
    } else if asked == 1 && answers[0] is None {
        ChoosingView::BackedOut
    } else {
        let stick = if asked == 1 {
            answers[0]->0
        } else {
            0
        };
        if answers.len() == asked {
            ChoosingView::Where {
                intro: where_intro(),
                items: destination_rows(removable[stick as int].name@),
            }
        } else {
            match answers[asked] {
                None => ChoosingView::BackedOut,
                Some(row) => ChoosingView::Chosen(
                    match dest_of_row(row as int) {
                        Dest::Both => Places { launch: true, stick: Some(stick) },
                        Dest::Esp => Places { launch: true, stick: None },
                        Dest::Removable => Places { launch: false, stick: Some(stick) },
                    },
                ),
            }
        }
    }
}

/// Ask where a snapshot should be written.
///
/// With nothing removable attached there is no question worth asking: the
/// ESP is the only answer, and a menu whose every row does the same thing is
/// a press the operator has to make for nothing. Two sticks is a rare case,
/// and folding it into the destination menu would make every row's meaning
/// depend on which of them is meant, so it is a separate question, asked
/// first, and only when it exists.
pub fn choose_destinations(removable: &[Volume], answers: &[Option<usize>], cols: usize) -> (r:
    Choosing)
    requires
        removable@.len() > 1 && answers@.len() > 0 ==> (answers@[0] matches Some(i) ==> i
            < removable@.len()),
    ensures
        r@ == choosing(removable@, answers@, cols),
{
    if removable.len() == 0 {
        return Choosing::Chosen(Places { launch: true, stick: None });
    }
    let asked: usize = if removable.len() > 1 {
        1
    } else {
        0
    };
    if answers.len() < asked {
        let mut intro = no_lines();
        add_line(&mut intro, dim("  More than one removable volume is attached."));
        add_line(&mut intro, dim("  A snapshot can go to one of them, not to all."));
        assert(shown(intro@) =~= which_intro());
        return Choosing::Which { intro, items: stick_items(removable, cols) };
    }
    let stick: usize = if asked == 1 {
        match answers[0] {
            None => return Choosing::BackedOut,
            Some(i) => i,
        }
    } else {
        0
    };
    if answers.len() == asked {
        let mut intro = no_lines();
        add_line(&mut intro, dim("  Removable media is attached, so a copy can be kept"));
        add_line(&mut intro, dim("  somewhere other than this machine's own disk."));
        assert(shown(intro@) =~= where_intro());
        return Choosing::Where { intro, items: destination_items(removable[stick].name.as_str()) };
    }
    match answers[asked] {
        None => Choosing::BackedOut,
        Some(0) => Choosing::Chosen(Places { launch: true, stick: Some(stick) }),
        Some(1) => Choosing::Chosen(Places { launch: true, stick: None }),
        Some(_) => Choosing::Chosen(Places { launch: false, stick: Some(stick) }),
    }
}

/// True if no destination is removable: every copy stays in the machine.
///
/// Not the same as "the ESP only": an image launched from a rescue stick has
/// a removable launch volume, and a copy written there is already an
/// off-device one.
pub open spec fn stays_inside(dests: Seq<Volume>) -> bool {
    forall|i: int| 0 <= i < dests.len() ==> !(#[trigger] dests[i]).removable
}

/// True if no destination is removable.
pub fn on_disk_only(dests: &[Volume]) -> (r: bool)
    ensures
        r == stays_inside(dests@),
{
    let mut i: usize = 0;
    while i < dests.len()
        invariant
            i <= dests@.len(),
            forall|j: int| 0 <= j < i ==> !(#[trigger] dests@[j]).removable,
        decreases dests@.len() - i,
    {
        if dests[i].removable {
            return false;
        }
        i += 1;
    }
    true
}

/// What is said to someone who has just saved a snapshot to the ESP alone.
pub open spec fn hint_lines(dests: Seq<Volume>, attached: bool) -> Seq<LineView> {
    if !stays_inside(dests) || attached {
        Seq::empty()
    } else {
        seq![
            blank_line(),
            styled("  No removable media is attached. Plug in a USB stick or"@, Style::Dim),
            styled("  an SD card before coming here, and a copy can be written"@, Style::Dim),
            styled("  to that as well."@, Style::Dim),
        ]
    }
}

/// What is said to someone who has just saved a snapshot to the ESP alone.
///
/// Empty unless there was nothing else on offer. Telling an operator who
/// deliberately chose the ESP that they should have chosen otherwise is
/// nagging; telling one who was never asked is the missing half of the
/// question.
pub fn attach_hint(dests: &[Volume], attached: bool) -> (r: Vec<Line>)
    ensures
        shown(r@) == hint_lines(dests@, attached),
{
    let mut out = no_lines();
    if !on_disk_only(dests) || attached {
        return out;
    }
    add_line(&mut out, Line::blank());
    add_line(&mut out, dim("  No removable media is attached. Plug in a USB stick or"));
    add_line(&mut out, dim("  an SD card before coming here, and a copy can be written"));
    add_line(&mut out, dim("  to that as well."));
    out
}

// ------------------------------------------------------------------- saving

/// What came of writing one snapshot to every chosen destination.
pub struct Written {
    pub ok: Vec<Line>,
    pub failed: Vec<Line>,
}

impl Written {
    pub fn any(&self) -> (r: bool)
        ensures
            r == (self.ok@.len() > 0),
    {
        self.ok.len() > 0
    }

    /// The paths written, then the destinations that refused, in one block.
    pub open spec fn all_lines(self) -> Seq<LineView> {
        let ok = shown(self.ok@);
        let failed = shown(self.failed@);
        if failed.len() == 0 {
            ok
        } else if ok.len() == 0 {
            failed
        } else {
            ok.push(blank_line()).push(styled("  But not everywhere:"@, Style::Warn)) + failed
        }
    }

    /// The paths written, then the destinations that refused, in one block.
    pub fn lines(&self) -> (r: Vec<Line>)
        ensures
            shown(r@) == self.all_lines(),
    {
        let mut out = copied_lines(self.ok.as_slice());
        if self.failed.len() > 0 {
            if out.len() > 0 {
                add_line(&mut out, Line::blank());
                add_line(&mut out, warn("  But not everywhere:"));
            }
            add_lines(&mut out, copied_lines(self.failed.as_slice()));
        }
        assert(shown(self.ok@).len() == self.ok@.len());
        assert(shown(self.failed@).len() == self.failed@.len());
        assert(shown(out@) =~= self.all_lines());
        out
    }
}

/// Lines of one's own that say the same.
pub(crate) fn copied_lines(lines: &[Line]) -> (r: Vec<Line>)
    ensures
        shown(r@) == shown(lines@),
{
    let mut out = no_lines();
    let mut i: usize = 0;
    while i < lines.len()
        invariant
            i <= lines@.len(),
            shown(out@) == shown(lines@).take(i as int),
        decreases lines@.len() - i,
    {
        add_line(&mut out, lines[i].copy());
        i += 1;
        assert(shown(lines@).take(i as int) =~= shown(lines@).take(i - 1).push(
            shown(lines@)[i - 1],
        ));
    }
    assert(shown(lines@).take(i as int) =~= shown(lines@));
    out
}

/// The line for a destination that refused.
pub open spec fn refused_line(volume: Seq<char>, why: Seq<char>) -> LineView {
    styled("    "@ + volume + " - "@ + why, Style::Bad)
}

fn refused(volume: &str, why: &str) -> (r: Line)
    ensures
        r@ == refused_line(volume@, why@),
{
    let mut s = "    ".to_owned();
    s.push_str(volume);
    s.push_str(" - ");
    s.push_str(why);
    bad(s)
}

/// What listing a volume came back with: the names in use, or why it could
/// not be listed.
pub type Listing = Result<Vec<String>, String>;

/// The destinations among the first `n` that could be listed.
pub open spec fn listable(listed: Seq<Listing>, n: nat) -> Seq<usize>
    decreases n,
{
    if n == 0 {
        Seq::empty()
    } else {
        let rest = listable(listed, (n - 1) as nat);
        if listed[n - 1] is Ok {
            rest.push((n - 1) as usize)
        } else {
            rest
        }
    }
}

/// What is said of the destinations among the first `n` that could not.
pub open spec fn unlistable(dests: Seq<Volume>, listed: Seq<Listing>, n: nat) -> Seq<LineView>
    decreases n,
{
    if n == 0 {
        Seq::empty()
    } else {
        let rest = unlistable(dests, listed, (n - 1) as nat);
        match listed[n - 1] {
            Ok(_) => rest,
            Err(e) => rest.push(refused_line(dests[n - 1].name@, e@)),
        }
    }
}

/// Every name in use on the first `n` volumes, as far as they could be
/// listed.
pub open spec fn names_taken(listed: Seq<Listing>, n: nat) -> Seq<Seq<char>>
    decreases n,
{
    if n == 0 {
        Seq::empty()
    } else {
        let rest = names_taken(listed, (n - 1) as nat);
        match listed[n - 1] {
            Ok(names) => rest + strings_of(names@),
            Err(_) => rest,
        }
    }
}

fn add_taken(out: &mut Vec<String>, names: &[String])
    ensures
        strings_of(final(out)@) == strings_of(old(out)@) + strings_of(names@),
{
    let ghost before = strings_of(out@);
    let mut i: usize = 0;
    assert(strings_of(out@) =~= before + strings_of(names@.take(0)));
    while i < names.len()
        invariant
            i <= names@.len(),
            strings_of(out@) == before + strings_of(names@.take(i as int)),
        decreases names@.len() - i,
    {
        let ghost now = out@;
        out.push(names[i].clone());
        i += 1;
        assert(strings_of(out@) =~= strings_of(now).push(names@[i - 1]@));
        assert(strings_of(out@) =~= before + strings_of(names@.take(i as int)));
    }
    assert(names@.take(i as int) =~= names@);
}

/// Every name in use, as far as the volumes could be listed.
fn taken_names(listed: &[Listing], out: &mut Vec<String>)
    ensures
        strings_of(final(out)@) == strings_of(old(out)@) + names_taken(listed@, listed@.len()),
{
    let ghost before = strings_of(out@);
    let mut i: usize = 0;
    assert(strings_of(out@) =~= before + names_taken(listed@, 0));
    while i < listed.len()
        invariant
            i <= listed@.len(),
            strings_of(out@) == before + names_taken(listed@, i as nat),
        decreases listed@.len() - i,
    {
        if let Ok(names) = &listed[i] {
            let ghost now = strings_of(out@);
            add_taken(out, names.as_slice());
            assert(strings_of(out@) =~= before + (names_taken(listed@, i as nat) + strings_of(
                names@,
            )));
        }
        i += 1;
    }
}

/// The next free name of a kind, or what is said where there is none.
pub open spec fn free_name(taken: Seq<Seq<char>>, kind: Kind) -> Result<Seq<char>, Seq<char>> {
    match kind {
        Kind::Gpt => match name_after(taken, "gpt."@, ""@, backup::MAX_SEQUENCE) {
            Some(name) => Ok(name),
            None => Err(
                "\\"@ + DIR@ + "\\ already holds gpt."@ + dec(backup::MAX_SEQUENCE as nat)
                    + "; delete some snapshots first"@,
            ),
        },
        Kind::Boot => match name_after(taken, "boot."@, ""@, bootcfg::MAX_SEQUENCE) {
            Some(name) => Ok(name),
            None => Err(
                "\\"@ + DIR@ + "\\ already holds boot."@ + dec(bootcfg::MAX_SEQUENCE as nat)
                    + "; delete some first"@,
            ),
        },
    }
}

/// A text or a complaint, as a value.
pub open spec fn said(r: Result<String, String>) -> Result<Seq<char>, Seq<char>> {
    match r {
        Ok(s) => Ok(s@),
        Err(e) => Err(e@),
    }
}

/// The next free `gpt.NNN`, given every name already in use.
pub fn gpt_name(taken: &[String]) -> (r: Result<String, String>)
    ensures
        said(r) == free_name(strings_of(taken@), Kind::Gpt),
{
    match backup::next_name(taken) {
        Some(name) => Ok(name),
        None => {
            let mut s = "\\".to_owned();
            s.push_str(DIR);
            s.push_str("\\ already holds gpt.");
            s.push_str(dec_text(backup::MAX_SEQUENCE as u64).as_str());
            s.push_str("; delete some snapshots first");
            Err(s)
        },
    }
}

/// The next free `boot.NNN`, given every name already in use.
pub fn boot_name(taken: &[String]) -> (r: Result<String, String>)
    ensures
        said(r) == free_name(strings_of(taken@), Kind::Boot),
{
    match bootcfg::next_name(taken) {
        Some(name) => Ok(name),
        None => {
            let mut s = "\\".to_owned();
            s.push_str(DIR);
            s.push_str("\\ already holds boot.");
            s.push_str(dec_text(bootcfg::MAX_SEQUENCE as u64).as_str());
            s.push_str("; delete some first");
            Err(s)
        },
    }
}

/// Where a snapshot is written, and under which name.
pub struct Saving {
    pub name: String,
    /// Which of the destinations take it. With none, nothing is written and
    /// the name means nothing.
    pub usable: Vec<usize>,
    /// What is said of the others.
    pub failed: Vec<Line>,
}

/// Choose a free name, and the destinations it is written to.
///
/// `listed` holds what listing each destination came back with, `others` the
/// same for **every volume the tool can see**. Numbering from the wider view
/// is what stops one name meaning two things: an operator who saves to the
/// stick now and to the ESP later would otherwise get a `gpt.001` in each
/// place holding a different table.
///
/// A destination whose directory cannot be listed is **dropped, not fatal**.
/// Numbering from a listing that failed could collide with a snapshot nobody
/// can see, so that volume must not be written to, but the others still can.
/// A listing that fails among the others is simply ignored: a volume nothing
/// is being written to has a say in what the file is called and none at all
/// in whether it gets written.
pub fn plan_snapshot(
    dests: &[Volume],
    listed: &[Listing],
    others: &[Listing],
    kind: Kind,
) -> (r: Result<Saving, String>)
    requires
        listed@.len() == dests@.len(),
    ensures
        ({
            let usable = listable(listed@, listed@.len());
            let name = free_name(
                names_taken(listed@, listed@.len()) + names_taken(others@, others@.len()),
                kind,
            );
            match r {
                Ok(saving) => {
                    &&& saving.usable@ == usable
                    &&& forall|i: int|
                        0 <= i < usable.len() ==> (#[trigger] saving.usable@[i]) < dests@.len()
                    &&& shown(saving.failed@) == unlistable(dests@, listed@, listed@.len())
                    &&& usable.len() > 0 ==> name == Ok::<Seq<char>, Seq<char>>(saving.name@)
                },
                Err(e) => usable.len() > 0 && name == Err::<Seq<char>, Seq<char>>(e@),
            }
        }),
{
    let mut usable: Vec<usize> = Vec::new();
    let mut failed = no_lines();
    let mut i: usize = 0;
    assert(listed.len() == listed@.len());
    while i < listed.len()
        invariant
            i <= listed@.len(),
            listed@.len() == dests@.len(),
            listed@.len() <= usize::MAX,
            usable@ == listable(listed@, i as nat),
            forall|j: int| 0 <= j < usable@.len() ==> (#[trigger] usable@[j]) < i,
            shown(failed@) == unlistable(dests@, listed@, i as nat),
        decreases listed@.len() - i,
    {
        match &listed[i] {
            Ok(_) => {
                usable.push(i);
            },
            Err(e) => {
                add_line(&mut failed, refused(dests[i].name.as_str(), e.as_str()));
            },
        }
        i += 1;
    }
    if usable.len() == 0 {
        return Ok(Saving { name: String::new(), usable, failed });
    }
    let mut taken: Vec<String> = Vec::new();
    taken_names(listed, &mut taken);
    taken_names(others, &mut taken);
    assert(strings_of(taken@) =~= names_taken(listed@, listed@.len()) + names_taken(
        others@,
        others@.len(),
    ));
    let name = match kind {
        Kind::Gpt => gpt_name(taken.as_slice()),
        Kind::Boot => boot_name(taken.as_slice()),
    };
    match name {
        Ok(name) => Ok(Saving { name, usable, failed }),
        Err(e) => Err(e),
    }
}

/// What is said of the first `n` saves that went well.
pub open spec fn saved_lines(
    dests: Seq<Volume>,
    usable: Seq<usize>,
    saves: Seq<Result<String, String>>,
    n: nat,
) -> Seq<LineView>
    decreases n,
{
    if n == 0 {
        Seq::empty()
    } else {
        let rest = saved_lines(dests, usable, saves, (n - 1) as nat);
        match saves[n - 1] {
            Ok(path) => rest.push(styled("    "@ + path@, Style::Key)).push(
                styled("      on "@ + dests[usable[n - 1] as int].name@, Style::Dim),
            ),
            Err(_) => rest,
        }
    }
}

/// What is said of the first `n` saves that did not.
pub open spec fn unsaved_lines(
    dests: Seq<Volume>,
    usable: Seq<usize>,
    saves: Seq<Result<String, String>>,
    n: nat,
) -> Seq<LineView>
    decreases n,
{
    if n == 0 {
        Seq::empty()
    } else {
        let rest = unsaved_lines(dests, usable, saves, (n - 1) as nat);
        match saves[n - 1] {
            Ok(_) => rest,
            Err(e) => rest.push(refused_line(dests[usable[n - 1] as int].name@, e@)),
        }
    }
}

/// What came of writing a snapshot. `saves` holds what came back from each
/// of the usable destinations.
///
/// Every destination is attempted even after one has failed, and both
/// outcomes are carried back. A stick that turned out to be full must not
/// hide the copy that did land on the ESP.
pub fn write_snapshot(dests: &[Volume], saving: &Saving, saves: &[Result<String, String>]) -> (r:
    Written)
    requires
        saves@.len() == saving.usable@.len(),
        forall|i: int|
            0 <= i < saving.usable@.len() ==> (#[trigger] saving.usable@[i]) < dests@.len(),
    ensures
        shown(r.ok@) == saved_lines(dests@, saving.usable@, saves@, saves@.len()),
        shown(r.failed@) == shown(saving.failed@) + unsaved_lines(
            dests@,
            saving.usable@,
            saves@,
            saves@.len(),
        ),
{
    let mut ok = no_lines();
    let mut failed = copied_lines(saving.failed.as_slice());
    let ghost head = shown(failed@);
    let mut i: usize = 0;
    assert(shown(failed@) =~= head + unsaved_lines(dests@, saving.usable@, saves@, 0));
    while i < saves.len()
        invariant
            i <= saves@.len(),
            saves@.len() == saving.usable@.len(),
            forall|i: int|
                0 <= i < saving.usable@.len() ==> (#[trigger] saving.usable@[i]) < dests@.len(),
            shown(ok@) == saved_lines(dests@, saving.usable@, saves@, i as nat),
            shown(failed@) == head + unsaved_lines(dests@, saving.usable@, saves@, i as nat),
        decreases saves@.len() - i,
    {
        let v = &dests[saving.usable[i]];
        match &saves[i] {
            Ok(path) => {
                let mut s = "    ".to_owned();
                s.push_str(path.as_str());
                add_line(&mut ok, key(s));
                let mut s = "      on ".to_owned();
                s.push_str(v.name.as_str());
                add_line(&mut ok, dim(s));
            },
            Err(e) => {
                let ghost now = unsaved_lines(dests@, saving.usable@, saves@, i as nat);
                add_line(&mut failed, refused(v.name.as_str(), e.as_str()));
                assert(shown(failed@) =~= head + now.push(
                    refused_line(dests@[saving.usable@[i as int] as int].name@, e@),
                ));
            },
        }
        i += 1;
    }
    Written { ok, failed }
}

/// Where a saved file stands.
pub fn saved_path(name: &str) -> (r: String)
    ensures
        r@ == "\\"@ + DIR@ + "\\"@ + name@,
{
    let mut s = "\\".to_owned();
    s.push_str(DIR);
    s.push_str("\\");
    s.push_str(name);
    s
}

/// What is said of a name that is taken: nothing is ever written over.
pub fn taken_error(name: &str) -> (r: String)
    ensures
        r@ == "\\"@ + DIR@ + "\\"@ + name@ + " already exists; refusing to replace it"@,
{
    let mut s = saved_path(name);
    s.push_str(" already exists; refusing to replace it");
    s
}

/// A destination that could not be listed is never written to.
pub proof fn an_unlisted_volume_is_not_written(listed: Seq<Listing>, n: nat, i: int)
    requires
        n <= listed.len() <= usize::MAX,
        0 <= i < listable(listed, n).len(),
    ensures
        listable(listed, n)[i] < n,
        listed[listable(listed, n)[i] as int] is Ok,
    decreases n,
{
    if n > 0 && i < listable(listed, (n - 1) as nat).len() {
        an_unlisted_volume_is_not_written(listed, (n - 1) as nat, i);
    }
}

/// The name a snapshot is given is not in use on any volume that could be
/// listed.
pub proof fn the_chosen_name_is_free(taken: Seq<Seq<char>>, kind: Kind)
    ensures
        free_name(taken, kind) matches Ok(name) ==> !taken.contains(name),
{
    if let Ok(name) = free_name(taken, kind) {
        let prefix = match kind {
            Kind::Gpt => "gpt."@,
            Kind::Boot => "boot."@,
        };
        let top = highest(taken, taken.len(), prefix, ""@);
        made_name_reads_back(prefix, (top + 1) as u32, ""@);
        if taken.contains(name) {
            let i = choose|i: int| 0 <= i < taken.len() && taken[i] == name;
            next_number_is_new(taken, taken.len(), prefix, ""@, i);
        }
    }
}

/// The destinations written to are exactly those that could be listed, each
/// once.
pub proof fn every_listed_volume_is_written(listed: Seq<Listing>, n: nat, i: usize)
    requires
        n <= listed.len() <= usize::MAX,
    ensures
        listable(listed, n).contains(i) <==> i < n && listed[i as int] is Ok,
        forall|j: int, k: int|
            0 <= j < k < listable(listed, n).len() ==> #[trigger] listable(listed, n)[j]
                < #[trigger] listable(listed, n)[k],
        forall|j: int| 0 <= j < listable(listed, n).len() ==> #[trigger] listable(listed, n)[j] < n,
    decreases n,
{
    if n > 0 {
        every_listed_volume_is_written(listed, (n - 1) as nat, i);
        let rest = listable(listed, (n - 1) as nat);
        let all = listable(listed, n);
        if rest.contains(i) {
            let j = choose|j: int| 0 <= j < rest.len() && rest[j] == i;
            assert(all[j] == i);
        }
        if i == n - 1 && listed[n - 1] is Ok {
            assert(all[rest.len() as int] == i);
        }
        if all.contains(i) && !rest.contains(i) {
            let j = choose|j: int| 0 <= j < all.len() && all[j] == i;
            if j < rest.len() {
                assert(rest[j] == i);
            }
        }
    }
}

proof fn taken_means_listed(listed: Seq<Listing>, n: nat, i: int, j: int)
    requires
        0 <= i < n <= listed.len(),
        listed[i] is Ok,
        0 <= j < (listed[i]->Ok_0)@.len(),
    ensures
        names_taken(listed, n).contains((listed[i]->Ok_0)@[j]@),
    decreases n,
{
    let rest = names_taken(listed, (n - 1) as nat);
    let all = names_taken(listed, n);
    let name = (listed[i]->Ok_0)@[j]@;
    if i == n - 1 {
        assert(strings_of((listed[i]->Ok_0)@)[j] == name);
        assert(all[rest.len() + j] == name);
    } else {
        taken_means_listed(listed, (n - 1) as nat, i, j);
        let k = choose|k: int| 0 <= k < rest.len() && rest[k] == name;
        assert(all[k] == name);
    }
}

/// A new snapshot never takes a name that is in use on any volume that could
/// be listed, whether it is written there or not: names are compared over all
/// of them together.
pub proof fn no_volume_has_the_name_chosen(
    listed: Seq<Listing>,
    others: Seq<Listing>,
    kind: Kind,
    i: int,
    j: int,
)
    requires
        free_name(
            names_taken(listed, listed.len()) + names_taken(others, others.len()),
            kind,
        ) is Ok,
    ensures
        ({
            let name = free_name(
                names_taken(listed, listed.len()) + names_taken(others, others.len()),
                kind,
            )->Ok_0;
            &&& 0 <= i < listed.len() && (listed[i] matches Ok(names) && 0 <= j < names@.len())
                ==> (listed[i]->Ok_0)@[j]@ != name
            &&& 0 <= i < others.len() && (others[i] matches Ok(names) && 0 <= j < names@.len())
                ==> (others[i]->Ok_0)@[j]@ != name
        }),
{
    let a = names_taken(listed, listed.len());
    let b = names_taken(others, others.len());
    let all = a + b;
    the_chosen_name_is_free(all, kind);
    if 0 <= i < listed.len() && (listed[i] matches Ok(names) && 0 <= j < names@.len()) {
        taken_means_listed(listed, listed.len(), i, j);
        let name = (listed[i]->Ok_0)@[j]@;
        let k = choose|k: int| 0 <= k < a.len() && a[k] == name;
        assert(all[k] == name);
    }
    if 0 <= i < others.len() && (others[i] matches Ok(names) && 0 <= j < names@.len()) {
        taken_means_listed(others, others.len(), i, j);
        let name = (others[i]->Ok_0)@[j]@;
        let k = choose|k: int| 0 <= k < b.len() && b[k] == name;
        assert(all[a.len() + k] == name);
    }
}

/// The name of a new snapshot is of its own kind, with the number after the
/// highest there is; while there is such a number there is such a name.
pub proof fn a_new_snapshot_has_the_next_number(
    taken: Seq<Seq<char>>,
    kind: Kind,
    prefix: Seq<char>,
    i: int,
)
    requires
        0 <= i < taken.len(),
        kind == Kind::Gpt ==> prefix == "gpt."@,
        kind == Kind::Boot ==> prefix == "boot."@,
    ensures
        free_name(taken, kind) matches Ok(name) ==> (sequence_of_text(
            name,
            prefix,
            ""@,
        ) matches Some(n) && 1 <= n <= 999 && (sequence_of_text(taken[i], prefix, ""@) matches Some(
            k,
        ) ==> k < n)),
        free_name(taken, kind) is Err <==> exists|j: int|
            0 <= j < taken.len() && (#[trigger] sequence_of_text(taken[j], prefix, ""@) == Some(
                999u32,
            )),
{
    let top = highest(taken, taken.len(), prefix, ""@);
    highest_is_reached(taken, taken.len(), prefix, ""@);
    next_number_is_new(taken, taken.len(), prefix, ""@, i);
    if top < 999 {
        made_name_reads_back(prefix, (top + 1) as u32, ""@);
        if exists|j: int|
            0 <= j < taken.len() && (#[trigger] sequence_of_text(taken[j], prefix, ""@)
                == Some(999u32)) {
            let j = choose|j: int|
                0 <= j < taken.len() && (#[trigger] sequence_of_text(taken[j], prefix, ""@)
                    == Some(999u32));
            next_number_is_new(taken, taken.len(), prefix, ""@, j);
        }
    }
}

/// The highest number is one of those in use, none above three digits.
proof fn highest_is_reached(taken: Seq<Seq<char>>, n: nat, prefix: Seq<char>, suffix: Seq<char>)
    requires
        n <= taken.len(),
    ensures
        highest(taken, n, prefix, suffix) <= 999,
        highest(taken, n, prefix, suffix) > 0 ==> exists|j: int|
            0 <= j < n && (#[trigger] sequence_of_text(taken[j], prefix, suffix) == Some(
                highest(taken, n, prefix, suffix),
            )),
    decreases n,
{
    if n > 0 {
        highest_is_reached(taken, (n - 1) as nat, prefix, suffix);
        let rest = highest(taken, (n - 1) as nat, prefix, suffix);
        let k = sequence_of_text(taken[n - 1], prefix, suffix);
        if k is Some && k->0 > rest {
            assert(sequence_of_text(taken[n - 1], prefix, suffix) == Some(
                highest(taken, n, prefix, suffix),
            ));
        } else if rest > 0 {
            let j = choose|j: int|
                0 <= j < n - 1 && (#[trigger] sequence_of_text(taken[j], prefix, suffix) == Some(
                    rest,
                ));
            assert(sequence_of_text(taken[j], prefix, suffix) == Some(
                highest(taken, n, prefix, suffix),
            ));
        }
    }
}

/// Where a snapshot goes is what was answered: with nothing removable attached
/// to the ESP, unasked; otherwise the first row is both, the second the ESP
/// alone and the third the stick alone, and of several sticks the one on the
/// row that was chosen.
pub proof fn a_snapshot_goes_where_it_was_sent(
    removable: Seq<Volume>,
    answers: Seq<Option<usize>>,
    cols: usize,
    stick: usize,
    row: usize,
)
    ensures
        removable.len() == 0 ==> choosing(removable, answers, cols) == ChoosingView::Chosen(
            Places { launch: true, stick: None },
        ),
        removable.len() == 1 && answers.len() == 0 ==> choosing(removable, answers, cols) is Where,
        removable.len() > 1 && answers.len() == 0 ==> choosing(removable, answers, cols) is Which,
        removable.len() > 1 && answers == seq![Some(stick)] ==> choosing(
            removable,
            answers,
            cols,
        ) is Where,
        ({
            let asked = (removable.len() == 1 && answers == seq![Some(row)] && stick == 0) || (
            removable.len() > 1 && answers == seq![Some(stick), Some(row)]);
            asked ==> choosing(removable, answers, cols) == ChoosingView::Chosen(
                Places {
                    launch: row < 2,
                    stick: if row == 1 {
                        None
                    } else {
                        Some(stick)
                    },
                },
            )
        }),
        removable.len() > 0 && answers.len() > 0 && answers.last() is None && answers.len() <= (
        if removable.len() > 1 {
            2int
        } else {
            1
        }) && (answers.len() == 2 ==> answers[0] is Some) ==> choosing(
            removable,
            answers,
            cols,
        ) is BackedOut,
{
}

proof fn sticks_hold(found: Seq<Attached>, n: nat, i: usize)
    requires
        n <= found.len() <= usize::MAX,
    ensures
        sticks(found, n).contains(i) <==> i < n && writable_stick(found[i as int]),
    decreases n,
{
    if n > 0 {
        sticks_hold(found, (n - 1) as nat, i);
        let rest = sticks(found, (n - 1) as nat);
        let all = sticks(found, n);
        if rest.contains(i) {
            let j = choose|j: int| 0 <= j < rest.len() && rest[j] == i;
            assert(all[j] == i);
        }
        if i == n - 1 && writable_stick(found[n - 1]) {
            assert(all[rest.len() as int] == i);
        }
        if all.contains(i) && !rest.contains(i) {
            let j = choose|j: int| 0 <= j < all.len() && all[j] == i;
            if j < rest.len() {
                assert(rest[j] == i);
            }
        }
    }
}

/// A copy is offered to every removable volume that can take one and to no
/// other: not the one the program came from, with something in it, writable,
/// and with a file system that answers.
pub proof fn every_usable_stick_is_offered(found: Seq<Attached>, i: usize)
    requires
        found.len() <= usize::MAX,
    ensures
        sticks(found, found.len()).contains(i) <==> i < found.len() && !found[i as int].launch
            && found[i as int].removable && found[i as int].present && !found[i as int].read_only
            && found[i as int].info is Ok,
{
    sticks_hold(found, found.len(), i);
}

/// A directory lists the files of a kind, and no directory, as that kind's
/// snapshots.
pub proof fn a_listing_holds_every_file_of_its_kind(
    entries: Seq<Entry>,
    kind: Kind,
    prefix: Seq<char>,
    i: int,
)
    requires
        0 <= i < entries.len(),
        kind == Kind::Gpt ==> prefix == "gpt."@,
        kind == Kind::Boot ==> prefix == "boot."@,
    ensures
        !entries[i].directory && sequence_of_text(entries[i].name@, prefix, ""@) is Some
            ==> files_of_kind(entries, kind, entries.len()).contains(entries[i].name@),
        forall|name: Seq<char>| #[trigger]
            files_of_kind(entries, kind, entries.len()).contains(name) ==> sequence_of_text(
                name,
                prefix,
                ""@,
            ) is Some,
{
    files_hold(entries, kind, entries.len(), i);
}

proof fn files_hold(entries: Seq<Entry>, kind: Kind, n: nat, i: int)
    requires
        n <= entries.len(),
    ensures
        0 <= i < n && !entries[i].directory && of_kind(entries[i].name@, kind) ==> files_of_kind(
            entries,
            kind,
            n,
        ).contains(entries[i].name@),
        forall|name: Seq<char>| #[trigger]
            files_of_kind(entries, kind, n).contains(name) ==> of_kind(name, kind),
    decreases n,
{
    if n > 0 {
        files_hold(entries, kind, (n - 1) as nat, i);
        let rest = files_of_kind(entries, kind, (n - 1) as nat);
        let all = files_of_kind(entries, kind, n);
        if 0 <= i < n && !entries[i].directory && of_kind(entries[i].name@, kind) {
            let name = entries[i].name@;
            if i == n - 1 {
                assert(all[rest.len() as int] == name);
            } else {
                let j = choose|j: int| 0 <= j < rest.len() && rest[j] == name;
                assert(all[j] == name);
            }
        }
        assert forall|name: Seq<char>| #[trigger] all.contains(name) implies of_kind(
            name,
            kind,
        ) by {
            let j = choose|j: int| 0 <= j < all.len() && all[j] == name;
            if j < rest.len() {
                assert(rest.contains(rest[j]));
            }
        }
    }
}

proof fn saves_are_told(
    dests: Seq<Volume>,
    usable: Seq<usize>,
    saves: Seq<Result<String, String>>,
    n: nat,
    i: int,
)
    requires
        0 <= i < n <= saves.len(),
    ensures
        saves[i] matches Ok(path) ==> saved_lines(dests, usable, saves, n).contains(
            styled("    "@ + path@, Style::Key),
        ),
        saves[i] matches Err(e) ==> unsaved_lines(dests, usable, saves, n).contains(
            styled(
                "    "@ + dests[usable[i] as int].name@ + " - "@ + e@,
                Style::Bad,
            ),
        ),
    decreases n,
{
    let (ok, bad) = (
        saved_lines(dests, usable, saves, (n - 1) as nat),
        unsaved_lines(dests, usable, saves, (n - 1) as nat),
    );
    let (all_ok, all_bad) = (
        saved_lines(dests, usable, saves, n),
        unsaved_lines(dests, usable, saves, n),
    );
    if i == n - 1 {
        match saves[i] {
            Ok(path) => {
                assert(all_ok[ok.len() as int] == styled("    "@ + path@, Style::Key));
            },
            Err(e) => {
                assert(all_bad[bad.len() as int] == refused_line(dests[usable[i] as int].name@, e@));
            },
        }
    } else {
        saves_are_told(dests, usable, saves, (n - 1) as nat, i);
        match saves[i] {
            Ok(path) => {
                let l = styled("    "@ + path@, Style::Key);
                let k = choose|k: int| 0 <= k < ok.len() && ok[k] == l;
                assert(all_ok[k] == l);
            },
            Err(e) => {
                let l = refused_line(dests[usable[i] as int].name@, e@);
                let k = choose|k: int| 0 <= k < bad.len() && bad[k] == l;
                assert(all_bad[k] == l);
            },
        }
    }
}

/// Every destination is accounted for: one that took the copy is named with
/// the path it has there, one that did not with the reason. Where none took
/// it, none is claimed to have.
pub proof fn every_save_is_accounted_for(
    dests: Seq<Volume>,
    usable: Seq<usize>,
    saves: Seq<Result<String, String>>,
    i: int,
)
    requires
        0 <= i < saves.len(),
    ensures
        saves[i] matches Ok(path) ==> saved_lines(dests, usable, saves, saves.len()).contains(
            styled("    "@ + path@, Style::Key),
        ),
        saves[i] matches Err(e) ==> unsaved_lines(dests, usable, saves, saves.len()).contains(
            styled(
                "    "@ + dests[usable[i] as int].name@ + " - "@ + e@,
                Style::Bad,
            ),
        ),
        (forall|j: int| 0 <= j < saves.len() ==> (#[trigger] saves[j]) is Err) ==> saved_lines(
            dests,
            usable,
            saves,
            saves.len(),
        ).len() == 0,
{
    saves_are_told(dests, usable, saves, saves.len(), i);
    if forall|j: int| 0 <= j < saves.len() ==> (#[trigger] saves[j]) is Err {
        none_saved(dests, usable, saves, saves.len());
    }
}

proof fn none_saved(
    dests: Seq<Volume>,
    usable: Seq<usize>,
    saves: Seq<Result<String, String>>,
    n: nat,
)
    requires
        n <= saves.len(),
        forall|j: int| 0 <= j < saves.len() ==> (#[trigger] saves[j]) is Err,
    ensures
        saved_lines(dests, usable, saves, n).len() == 0,
    decreases n,
{
    if n > 0 {
        none_saved(dests, usable, saves, (n - 1) as nat);
        assert(saves[n - 1] is Err);
    }
}


/// A volume is known by its label, blanks at its ends aside; one that is
/// mounted read-only is refused, and one with a blank label has none.
pub proof fn a_volume_is_known_by_its_label(label: Seq<char>, free: u64)
    ensures
        label_of(true, label, free) is Err,
        label_of(false, label, free) matches Ok((name, room)) && room == Some(free) && (name is None
            <==> trimmed_end(trimmed_start(label)).len() == 0) && (name is Some ==> name == Some(
            trimmed_end(trimmed_start(label)),
        )),
{
}

/// A file may hold a saved table exactly if it is no directory and its name
/// starts with `gpt.` or ends with `.bin`, in whatever case.
pub proof fn every_file_that_may_hold_a_table_is_listed(entries: Seq<Entry>, n: nat, name: Seq<char>)
    requires
        n <= entries.len(),
    ensures
        table_files(entries, n).contains(name) <==> exists|i: int|
            0 <= i < n && (#[trigger] entries[i]).name@ == name && !entries[i].directory
                && may_hold_table(name),
        may_hold_table(name) <==> {
            let b = encode_utf8(name);
            b.len() >= 4 && (same_fold(b.take(4), encode_utf8("gpt."@)) || same_fold(
                b.skip(b.len() - 4),
                encode_utf8(".bin"@),
            ))
        },
    decreases n,
{
    if n > 0 {
        every_file_that_may_hold_a_table_is_listed(entries, (n - 1) as nat, name);
        let rest = table_files(entries, (n - 1) as nat);
        let all = table_files(entries, n);
        let e = entries[n - 1];
        if rest.contains(name) {
            let k = choose|k: int| 0 <= k < rest.len() && rest[k] == name;
            assert(all[k] == name);
        }
        if !e.directory && may_hold_table(e.name@) {
            assert(all[rest.len() as int] == e.name@);
            if all.contains(name) && !rest.contains(name) {
                let k = choose|k: int| 0 <= k < all.len() && all[k] == name;
                assert(k == rest.len());
                assert(entries[n - 1].name@ == name);
            }
        }
    }
}

/// A volume that could not be listed is named among those that refused, with
/// the reason.
pub proof fn every_volume_that_refused_is_named(
    dests: Seq<Volume>,
    listed: Seq<Listing>,
    n: nat,
    i: int,
)
    requires
        0 <= i < n <= listed.len(),
        listed[i] is Err,
    ensures
        unlistable(dests, listed, n).contains(refused_line(dests[i].name@, listed[i]->Err_0@)),
    decreases n,
{
    let rest = unlistable(dests, listed, (n - 1) as nat);
    let all = unlistable(dests, listed, n);
    let x = refused_line(dests[i].name@, listed[i]->Err_0@);
    if i < n - 1 {
        every_volume_that_refused_is_named(dests, listed, (n - 1) as nat, i);
        let k = choose|k: int| 0 <= k < rest.len() && rest[k] == x;
        assert(all[k] == x);
    } else {
        assert(all[rest.len() as int] == x);
    }
}

} // verus!
