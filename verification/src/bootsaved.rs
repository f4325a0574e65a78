//! Boot configurations that were saved: what is found on the volumes, and
//! putting one back.

use crate::backup::meta_from;
use crate::bootcfg::{
    decode, describe, description_lines, file_says, no_saved_variable_is_left_out, plan_restore,
    restore_writes, summary, summary_text, DecodeError, Snapshot, SnapshotView,
};
use crate::bootflow::{noted, Change, ChangeView, Prepared, PreparedView};
use crate::bootopt::{slot_of_text, var_writes_of, VarWriteView};
use crate::crc::Crc32;
use crate::disks::show_note;
use crate::pages::{add_item, item_view, items_of, no_items, Item, ItemView};
use crate::saved::{
    add_rejected, found_view, rejected, rejected_block, rejected_line, some_unusable,
    some_unusable_lines, unlisted, unlisted_line, written_by, written_line, File, Looked, Opening,
    OpeningView,
};
use crate::style::{
    add_line, add_lines, bad, blank_line, dim, in_either, in_pushed, key, line, no_lines, shown,
    styled, warn, Line, LineView, Style,
};
use crate::text::{pad_right, pad_right_text};
use crate::volumes::DIR;
use vstd::prelude::*;

verus! {

/// A boot configuration found on one of the volumes.
pub struct SavedBoot {
    pub name: String,
    /// The volume it was found on.
    pub source: String,
    pub snapshot: Snapshot,
}

/// [`SavedBoot`] as a value.
pub struct SavedBootView {
    pub name: Seq<char>,
    pub source: Seq<char>,
    pub snapshot: SnapshotView,
}

impl View for SavedBoot {
    type V = SavedBootView;

    open spec fn view(&self) -> SavedBootView {
        SavedBootView { name: self.name@, source: self.source@, snapshot: self.snapshot@ }
    }
}

/// Boot configurations as values.
pub open spec fn boots_of(v: Seq<SavedBoot>) -> Seq<SavedBootView> {
    Seq::new(v.len(), |i: int| v[i]@)
}

/// What a file comes to: a snapshot, or why it is not one.
pub open spec fn boot_in(file: File) -> Result<SnapshotView, Seq<char>> {
    match file.data {
        Err(e) => Err(e@),
        Ok(data) => match file_says(data@) {
            Ok(s) => Ok(s),
            Err(e) => Err(e.message()),
        },
    }
}

/// The snapshots among the first `n` files of a volume.
pub open spec fn boots_among(files: Seq<File>, volume: Seq<char>, n: nat) -> Seq<SavedBootView>
    decreases n,
{
    if n == 0 {
        Seq::empty()
    } else {
        let rest = boots_among(files, volume, (n - 1) as nat);
        match boot_in(files[n - 1]) {
            Ok(snapshot) => rest.push(
                SavedBootView { name: files[n - 1].name@, source: volume, snapshot },
            ),
            Err(_) => rest,
        }
    }
}

/// What is said of the others.
pub open spec fn bad_boots_among(files: Seq<File>, volume: Seq<char>, n: nat) -> Seq<LineView>
    decreases n,
{
    if n == 0 {
        Seq::empty()
    } else {
        let rest = bad_boots_among(files, volume, (n - 1) as nat);
        match boot_in(files[n - 1]) {
            Ok(_) => rest,
            Err(e) => rest.push(rejected_line(files[n - 1].name@, volume, e)),
        }
    }
}

/// The snapshots on the first `n` volumes.
pub open spec fn boots_found(looked: Seq<Looked>, n: nat) -> Seq<SavedBootView>
    decreases n,
{
    if n == 0 {
        Seq::empty()
    } else {
        let rest = boots_found(looked, (n - 1) as nat);
        match looked[n - 1].files {
            Ok(files) => rest + boots_among(files@, looked[n - 1].volume@, files@.len()),
            Err(_) => rest,
        }
    }
}

/// What is said of everything else found on the first `n` volumes.
pub open spec fn boots_rejected(looked: Seq<Looked>, n: nat) -> Seq<LineView>
    decreases n,
{
    if n == 0 {
        Seq::empty()
    } else {
        let rest = boots_rejected(looked, (n - 1) as nat);
        match looked[n - 1].files {
            Ok(files) => rest + bad_boots_among(files@, looked[n - 1].volume@, files@.len()),
            Err(e) => rest.push(unlisted_line(looked[n - 1].volume@, e@)),
        }
    }
}

/// What was found: the snapshots that decoded, and a complaint about each
/// one that did not.
pub struct FoundBoot {
    pub usable: Vec<SavedBoot>,
    pub rejected: Vec<Line>,
}

fn load_file(found: &mut FoundBoot, volume: &str, file: &File, crc: &impl Crc32)
    ensures
        match boot_in(*file) {
            Ok(snapshot) => {
                &&& boots_of(final(found).usable@) == boots_of(old(found).usable@).push(
                    SavedBootView { name: file.name@, source: volume@, snapshot },
                )
                &&& shown(final(found).rejected@) == shown(old(found).rejected@)
            },
            Err(e) => {
                &&& boots_of(final(found).usable@) == boots_of(old(found).usable@)
                &&& shown(final(found).rejected@) == shown(old(found).rejected@).push(
                    rejected_line(file.name@, volume@, e),
                )
            },
        },
{
    let ghost before = boots_of(found.usable@);
    match &file.data {
        Err(e) => add_line(
            &mut found.rejected,
            rejected(file.name.as_str(), volume, e.as_str()),
        ),
        Ok(data) => match decode(data.as_slice(), crc) {
            Ok(snapshot) => {
                found.usable.push(
                    SavedBoot { name: file.name.clone(), source: volume.to_owned(), snapshot },
                );
                assert(boots_of(found.usable@) =~= before.push(
                    SavedBootView { name: file.name@, source: volume@, snapshot: snapshot@ },
                ));
            },
            Err(e) => add_line(
                &mut found.rejected,
                rejected(file.name.as_str(), volume, e.to_text().as_str()),
            ),
        },
    }
}

fn load_files(found: &mut FoundBoot, volume: &str, files: &[File], crc: &impl Crc32)
    ensures
        boots_of(final(found).usable@) == boots_of(old(found).usable@) + boots_among(
            files@,
            volume@,
            files@.len(),
        ),
        shown(final(found).rejected@) == shown(old(found).rejected@) + bad_boots_among(
            files@,
            volume@,
            files@.len(),
        ),
{
    let ghost usable = boots_of(found.usable@);
    let ghost lines = shown(found.rejected@);
    let mut i: usize = 0;
    assert(boots_of(found.usable@) =~= usable + boots_among(files@, volume@, 0));
    assert(shown(found.rejected@) =~= lines + bad_boots_among(files@, volume@, 0));
    while i < files.len()
        invariant
            i <= files@.len(),
            boots_of(found.usable@) == usable + boots_among(files@, volume@, i as nat),
            shown(found.rejected@) == lines + bad_boots_among(files@, volume@, i as nat),
        decreases files@.len() - i,
    {
        load_file(found, volume, &files[i], crc);
        i += 1;
        assert(boots_of(found.usable@) =~= usable + boots_among(files@, volume@, i as nat));
        assert(shown(found.rejected@) =~= lines + bad_boots_among(files@, volume@, i as nat));
    }
}

/// Decode every boot configuration on every volume. Every volume is looked
/// at, and one that will not open is a rejection rather than the end of the
/// screen.
pub fn load_boot(looked: &[Looked], crc: &impl Crc32) -> (r: FoundBoot)
    ensures
        boots_of(r.usable@) == boots_found(looked@, looked@.len()),
        shown(r.rejected@) == boots_rejected(looked@, looked@.len()),
{
    let mut found = FoundBoot { usable: Vec::new(), rejected: no_lines() };
    let mut i: usize = 0;
    assert(boots_of(found.usable@) =~= boots_found(looked@, 0));
    while i < looked.len()
        invariant
            i <= looked@.len(),
            boots_of(found.usable@) == boots_found(looked@, i as nat),
            shown(found.rejected@) == boots_rejected(looked@, i as nat),
        decreases looked@.len() - i,
    {
        let volume = looked[i].volume.as_str();
        match &looked[i].files {
            Ok(files) => load_files(&mut found, volume, files.as_slice(), crc),
            Err(e) => add_line(&mut found.rejected, unlisted(volume, e.as_str())),
        }
        i += 1;
    }
    found
}

// -------------------------------------------------------------- the screens

/// What is said where nothing can be used.
pub open spec fn no_boots_lines(rejected: Seq<LineView>) -> Seq<LineView> {
    seq![
        styled("  No usable boot snapshots in \\"@ + DIR@ + "\\, on the ESP or"@, Style::Warn),
        styled("  on any removable media attached now."@, Style::Warn),
        blank_line(),
        styled("  One is taken automatically before the first change"@, Style::Dim),
        styled("  of a session, so there is nothing here until then."@, Style::Dim),
    ] + rejected_block(rejected)
}

/// What is said where nothing can be used.
pub fn no_boots(rejected: Vec<Line>) -> (r: Vec<Line>)
    ensures
        shown(r@) == no_boots_lines(shown(rejected@)),
{
    let mut out = no_lines();
    let mut s = "  No usable boot snapshots in \\".to_owned();
    s.push_str(DIR);
    s.push_str("\\, on the ESP or");
    add_line(&mut out, warn(s));
    add_line(&mut out, warn("  on any removable media attached now."));
    add_line(&mut out, Line::blank());
    add_line(&mut out, dim("  One is taken automatically before the first change"));
    add_line(&mut out, dim("  of a session, so there is nothing here until then."));
    let ghost head = shown(out@);
    assert(head =~= seq![
        styled("  No usable boot snapshots in \\"@ + DIR@ + "\\, on the ESP or"@, Style::Warn),
        styled("  on any removable media attached now."@, Style::Warn),
        blank_line(),
        styled("  One is taken automatically before the first change"@, Style::Dim),
        styled("  of a session, so there is nothing here until then."@, Style::Dim),
    ]);
    add_rejected(&mut out, rejected);
    out
}

/// How putting a boot configuration back begins: `found` is how many can be
/// used and what is said of the rest, once they were looked for.
pub open spec fn boot_opening(
    esp_lost: bool,
    warned: Option<bool>,
    found: Option<(usize, Seq<LineView>)>,
) -> OpeningView {
    if esp_lost && warned is None {
        OpeningView::WarnEsp
    } else if esp_lost && warned == Some(false) {
        OpeningView::Done
    } else {
        match found {
            None => OpeningView::Load,
            Some((usable, rejected)) => if usable == 0 {
                OpeningView::Nothing { lines: no_boots_lines(rejected) }
            } else if rejected.len() > 0 {
                OpeningView::Note { lines: some_unusable_lines(rejected) }
            } else {
                OpeningView::Offer
            },
        }
    }
}

/// How putting a boot configuration back begins.
pub fn boot_restore_opening(
    esp_lost: bool,
    warned: Option<bool>,
    found: Option<(usize, Vec<Line>)>,
) -> (r: Opening)
    ensures
        r@ == boot_opening(esp_lost, warned, found_view(found)),
{
    if esp_lost {
        match warned {
            None => return Opening::WarnEsp,
            Some(false) => return Opening::Done,
            Some(true) => {},
        }
    }
    match found {
        None => Opening::Load,
        Some((usable, rejected)) => {
            assert(shown(rejected@).len() == rejected@.len());
            if usable == 0 {
                Opening::Nothing { lines: no_boots(rejected) }
            } else if rejected.len() > 0 {
                Opening::Note { lines: some_unusable(rejected) }
            } else {
                Opening::Offer
            }
        },
    }
}

/// The row for one boot configuration. The firmware is named because the one
/// thing that makes a snapshot the wrong one to put back is that it was
/// taken on a different machine.
pub open spec fn boot_row(b: SavedBoot) -> ItemView {
    item_view(
        pad_right(b.name@, 9) + " "@ + summary_text(b.snapshot@),
        seq![
            styled("  found on "@ + b.source@, Style::Dim),
            written_line(meta_from(b.snapshot@.meta, "tool"@, 0)),
            match meta_from(b.snapshot@.meta, "firmware"@, 0) {
                Some(f) => styled("  on "@ + f, Style::Dim),
                None => styled("  firmware not recorded"@, Style::Dim),
            },
        ],
    )
}

fn boot_item(b: &SavedBoot) -> (r: Item)
    ensures
        r@ == boot_row(*b),
{
    let mut label = pad_right_text(b.name.as_str(), 9);
    label.push_str(" ");
    label.push_str(summary(&b.snapshot).as_str());
    let mut detail = no_lines();
    let mut s = "  found on ".to_owned();
    s.push_str(b.source.as_str());
    add_line(&mut detail, dim(s));
    add_line(&mut detail, written_by(b.snapshot.meta_get("tool")));
    match b.snapshot.meta_get("firmware") {
        Some(f) => {
            let mut s = "  on ".to_owned();
            s.push_str(f);
            add_line(&mut detail, dim(s));
        },
        None => add_line(&mut detail, dim("  firmware not recorded")),
    }
    assert(shown(detail@) =~= boot_row(*b).detail);
    Item::with_detail(label, detail)
}

/// The boot configurations as rows.
pub open spec fn boot_rows(list: Seq<SavedBoot>) -> Seq<ItemView> {
    Seq::new(list.len(), |i: int| boot_row(list[i]))
}

/// The boot configurations as rows to choose from.
pub fn boot_items(list: &[SavedBoot]) -> (r: Vec<Item>)
    ensures
        items_of(r@) == boot_rows(list@),
{
    let mut out = no_items();
    let mut i: usize = 0;
    assert(items_of(out@) =~= boot_rows(list@.take(0)));
    while i < list.len()
        invariant
            i <= list@.len(),
            items_of(out@) == boot_rows(list@.take(i as int)),
        decreases list@.len() - i,
    {
        let ghost before = boot_rows(list@.take(i as int));
        add_item(&mut out, boot_item(&list[i]));
        i += 1;
        assert(boot_rows(list@.take(i as int)) =~= before.push(boot_row(list@[i - 1])));
    }
    assert(list@.take(i as int) =~= list@);
    out
}

/// What stands above the boot configurations.
pub open spec fn boot_intro_lines() -> Seq<LineView> {
    seq![
        styled("  Saved copies of the boot entries and the boot order."@, Style::Dim),
        styled("  Restoring one writes those variables back as they were."@, Style::Dim),
    ]
}

/// What stands above the boot configurations.
pub fn boot_intro() -> (r: Vec<Line>)
    ensures
        shown(r@) == boot_intro_lines(),
{
    let mut out = no_lines();
    add_line(&mut out, dim("  Saved copies of the boot entries and the boot order."));
    add_line(&mut out, dim("  Restoring one writes those variables back as they were."));
    out
}

/// Putting this boot configuration back.
pub open spec fn restore_change(b: SavedBoot) -> ChangeView {
    ChangeView {
        title: "Restore the boot configuration"@,
        review: seq![
            styled("  "@ + b.name@, Style::Key),
            styled("  found on "@ + b.source@, Style::Dim),
            blank_line(),
        ] + description_lines(b.snapshot@) + seq![
            blank_line(),
            styled("  Only the variables listed above are written. An entry"@, Style::Warn),
            styled("  added since this was taken is left alone, not removed:"@, Style::Warn),
            styled("  this puts back what was saved, it does not put NVRAM"@, Style::Warn),
            styled("  back exactly as it was."@, Style::Warn),
        ],
        warning: seq![
            styled("  "@ + b.name@ + "   taken "@ + b.snapshot@.time.text(), Style::Key),
            blank_line(),
            styled("  This OVERWRITES the boot entries and the boot order"@, Style::Bad),
            styled("  named on the previous screen."@, Style::Bad),
            styled("  No disk is written to."@, Style::Normal),
        ],
        writes: restore_writes(b.snapshot@.vars),
    }
}

/// What putting this boot configuration back comes to.
pub open spec fn boot_restore(b: SavedBoot) -> PreparedView {
    if restore_writes(b.snapshot@.vars).len() == 0 {
        noted("Restore the boot configuration"@, b.name@ + " holds no variables to write."@)
    } else {
        PreparedView::Change(restore_change(b))
    }
}

/// Put a saved boot configuration back into NVRAM.
///
/// The counterpart to the snapshot taken before the session's first change:
/// an NVRAM edit made from a screen with no keyboard has something behind
/// it.
pub fn run_boot_restore(b: &SavedBoot) -> (r: Prepared)
    ensures
        r@ == boot_restore(*b),
{
    let writes = plan_restore(&b.snapshot);
    assert(var_writes_of(writes@).len() == writes@.len());
    if writes.len() == 0 {
        let mut s = b.name.clone();
        s.push_str(" holds no variables to write.");
        return Prepared::Refused {
            title: "Restore the boot configuration".to_owned(),
            lines: show_note(s.as_str()),
        };
    }
    let mut review = no_lines();
    let mut s = "  ".to_owned();
    s.push_str(b.name.as_str());
    add_line(&mut review, key(s));
    let mut s = "  found on ".to_owned();
    s.push_str(b.source.as_str());
    add_line(&mut review, dim(s));
    add_line(&mut review, Line::blank());
    add_lines(&mut review, describe(&b.snapshot));
    add_line(&mut review, Line::blank());
    add_line(&mut review, warn("  Only the variables listed above are written. An entry"));
    add_line(&mut review, warn("  added since this was taken is left alone, not removed:"));
    add_line(&mut review, warn("  this puts back what was saved, it does not put NVRAM"));
    add_line(&mut review, warn("  back exactly as it was."));
    let mut warning = no_lines();
    let mut s = "  ".to_owned();
    s.push_str(b.name.as_str());
    s.push_str("   taken ");
    s.push_str(b.snapshot.time.to_text().as_str());
    add_line(&mut warning, key(s));
    add_line(&mut warning, Line::blank());
    add_line(&mut warning, bad("  This OVERWRITES the boot entries and the boot order"));
    add_line(&mut warning, bad("  named on the previous screen."));
    add_line(&mut warning, line("  No disk is written to."));
    let c = Change {
        title: "Restore the boot configuration".to_owned(),
        review,
        warning,
        writes,
    };
    let ghost want = restore_change(*b);
    assert(c@.review =~= want.review);
    assert(c@.warning =~= want.warning);
    assert(c@ == want);
    Prepared::Change(c)
}


/// Every file found on a volume that could be listed is accounted for: one
/// that decodes is offered, under its name and its volume, and of any other
/// it is said what is wrong with it.
pub proof fn every_saved_file_is_offered_or_explained(
    looked: Seq<Looked>,
    n: nat,
    v: int,
    files: Vec<File>,
    f: int,
)
    requires
        0 <= v < n <= looked.len(),
        looked[v].files == Ok::<Vec<File>, String>(files),
        0 <= f < files@.len(),
    ensures
        files@[f].data matches Ok(data) ==> (file_says(data@) matches Ok(a) ==> boots_found(
            looked,
            n,
        ).contains(
            (SavedBootView { name: files@[f].name@, source: looked[v].volume@, snapshot: a }),
        )),
        files@[f].data matches Ok(data) ==> (file_says(data@) matches Err(e)
            ==> boots_rejected(looked, n).contains(
            styled(
                "  "@ + files@[f].name@ + " on "@ + looked[v].volume@ + " - "@ + e.message(),
                Style::Bad,
            ),
        )),
        files@[f].data matches Err(e) ==> boots_rejected(looked, n).contains(
            styled(
                "  "@ + files@[f].name@ + " on "@ + looked[v].volume@ + " - "@ + e@,
                Style::Bad,
            ),
        ),
    decreases n,
{
    if v < n - 1 {
        every_saved_file_is_offered_or_explained(looked, (n - 1) as nat, v, files, f);
        if let Ok(more) = looked[n - 1].files {
            let volume = looked[n - 1].volume@;
            let a = boots_found(looked, (n - 1) as nat);
            let b = boots_among(more@, volume, more@.len());
            assert forall|x: SavedBootView| a.contains(x) implies (a + b).contains(x) by {
                let i = choose|i: int| 0 <= i < a.len() && a[i] == x;
                assert((a + b)[i] == x);
            }
            let c = boots_rejected(looked, (n - 1) as nat);
            let d = bad_boots_among(more@, volume, more@.len());
            assert forall|x: LineView| c.contains(x) implies (c + d).contains(x) by {
                in_either(c, d, x);
            }
        } else if let Err(e) = looked[n - 1].files {
            let c = boots_rejected(looked, (n - 1) as nat);
            let y = unlisted_line(looked[n - 1].volume@, e@);
            assert forall|x: LineView| c.contains(x) implies c.push(y).contains(x) by {
                in_pushed(c, y, x);
            }
        }
    } else {
        let volume = looked[v].volume@;
        let a = boots_found(looked, (n - 1) as nat);
        let b = boots_among(files@, volume, files@.len());
        let c = boots_rejected(looked, (n - 1) as nat);
        let d = bad_boots_among(files@, volume, files@.len());
        a_file_is_among_them(files@, volume, files@.len(), f);
        assert forall|x: SavedBootView| b.contains(x) implies (a + b).contains(x) by {
            let i = choose|i: int| 0 <= i < b.len() && b[i] == x;
            assert((a + b)[a.len() + i] == x);
        }
        assert forall|x: LineView| d.contains(x) implies (c + d).contains(x) by {
            in_either(c, d, x);
        }
    }
}

proof fn a_file_is_among_them(files: Seq<File>, volume: Seq<char>, n: nat, f: int)
    requires
        0 <= f < n <= files.len(),
    ensures
        boot_in(files[f]) matches Ok(snapshot) ==> boots_among(files, volume, n).contains(
            (SavedBootView { name: files[f].name@, source: volume, snapshot }),
        ),
        boot_in(files[f]) matches Err(e) ==> bad_boots_among(files, volume, n).contains(
            rejected_line(files[f].name@, volume, e),
        ),
    decreases n,
{
    let a = boots_among(files, volume, (n - 1) as nat);
    let c = bad_boots_among(files, volume, (n - 1) as nat);
    if f < n - 1 {
        a_file_is_among_them(files, volume, (n - 1) as nat, f);
        match boot_in(files[n - 1]) {
            Ok(snapshot) => {
                let y = SavedBootView { name: files[n - 1].name@, source: volume, snapshot };
                assert forall|x: SavedBootView| a.contains(x) implies a.push(y).contains(x) by {
                    let i = choose|i: int| 0 <= i < a.len() && a[i] == x;
                    assert(a.push(y)[i] == x);
                }
            },
            Err(e) => {
                let y = rejected_line(files[n - 1].name@, volume, e);
                assert forall|x: LineView| c.contains(x) implies c.push(y).contains(x) by {
                    in_pushed(c, y, x);
                }
            },
        }
    } else {
        match boot_in(files[f]) {
            Ok(snapshot) => {
                let y = SavedBootView { name: files[f].name@, source: volume, snapshot };
                assert(a.push(y)[a.len() as int] == y);
            },
            Err(e) => {
                let y = rejected_line(files[f].name@, volume, e);
                in_pushed(c, y, y);
            },
        }
    }
}

/// Only what decodes is offered: every snapshot on the list is what some file
/// on some volume says, under that file's name and that volume.
pub proof fn only_a_decoded_snapshot_is_offered(looked: Seq<Looked>, n: nat, i: int) -> (place: (int, int))
    requires
        n <= looked.len(),
        0 <= i < boots_found(looked, n).len(),
    ensures
        0 <= place.0 < n,
        looked[place.0].files is Ok,
        0 <= place.1 < looked[place.0].files->Ok_0@.len(),
        looked[place.0].files->Ok_0@[place.1].data is Ok,
        file_says(looked[place.0].files->Ok_0@[place.1].data->Ok_0@) == Ok::<
            SnapshotView,
            DecodeError,
        >(boots_found(looked, n)[i].snapshot),
        boots_found(looked, n)[i].name == looked[place.0].files->Ok_0@[place.1].name@,
        boots_found(looked, n)[i].source == looked[place.0].volume@,
    decreases n,
{
    let before = boots_found(looked, (n - 1) as nat);
    if i < before.len() {
        only_a_decoded_snapshot_is_offered(looked, (n - 1) as nat, i)
    } else {
        let files = looked[n - 1].files->Ok_0;
        let f = an_offered_file_decodes(
            files@,
            looked[n - 1].volume@,
            files@.len(),
            i - before.len(),
        );
        (n - 1, f)
    }
}

proof fn an_offered_file_decodes(files: Seq<File>, volume: Seq<char>, n: nat, i: int) -> (f: int)
    requires
        n <= files.len(),
        0 <= i < boots_among(files, volume, n).len(),
    ensures
        0 <= f < n,
        boot_in(files[f]) == Ok::<SnapshotView, Seq<char>>(boots_among(files, volume, n)[i].snapshot),
        boots_among(files, volume, n)[i].name == files[f].name@,
        boots_among(files, volume, n)[i].source == volume,
    decreases n,
{
    if i < boots_among(files, volume, (n - 1) as nat).len() {
        an_offered_file_decodes(files, volume, (n - 1) as nat, i)
    } else {
        n - 1
    }
}

/// A volume that could not be listed is named, with the reason.
pub proof fn every_volume_out_of_reach_is_named(looked: Seq<Looked>, n: nat, v: int, why: String)
    requires
        0 <= v < n <= looked.len(),
        looked[v].files == Err::<Vec<File>, String>(why),
    ensures
        boots_rejected(looked, n).contains(
            styled("  "@ + looked[v].volume@ + " - "@ + why@, Style::Bad),
        ),
    decreases n,
{
    let x = unlisted_line(looked[v].volume@, why@);
    let c = boots_rejected(looked, (n - 1) as nat);
    if v < n - 1 {
        every_volume_out_of_reach_is_named(looked, (n - 1) as nat, v, why);
    }
    match looked[n - 1].files {
        Ok(more) => in_either(c, bad_boots_among(more@, looked[n - 1].volume@, more@.len()), x),
        Err(e) => in_pushed(c, unlisted_line(looked[n - 1].volume@, e@), x),
    }
}

/// Putting a boot configuration back writes every variable it was saved with
/// that may be written, and is refused exactly where it holds none.
pub proof fn restoring_writes_what_was_saved(b: SavedBoot, i: int)
    ensures
        boot_restore(b) matches PreparedView::Change(c) ==> c.writes == restore_writes(
            b.snapshot@.vars,
        ) && c.writes.len() > 0,
        0 <= i < b.snapshot@.vars.len() && (slot_of_text(b.snapshot@.vars[i].0) is Some
            || b.snapshot@.vars[i].0 == "BootOrder"@ || b.snapshot@.vars[i].0 == "BootNext"@
            || b.snapshot@.vars[i].0 == "Timeout"@) ==> boot_restore(b) is Change && exists|
            k: int,
        |
            0 <= k < boot_restore(b)->Change_0.writes.len()
                && #[trigger] boot_restore(b)->Change_0.writes[k] == (VarWriteView {
                name: b.snapshot@.vars[i].0,
                data: b.snapshot@.vars[i].1,
            }),
        !(boot_restore(b) is Change) ==> restore_writes(b.snapshot@.vars) == Seq::<
            VarWriteView,
        >::empty(),
{
    let vars = b.snapshot@.vars;
    if 0 <= i < vars.len() && (slot_of_text(vars[i].0) is Some || vars[i].0 == "BootOrder"@
        || vars[i].0 == "BootNext"@ || vars[i].0 == "Timeout"@) {
        no_saved_variable_is_left_out(vars, i);
        let k = choose|k: int|
            0 <= k < restore_writes(vars).len() && #[trigger] restore_writes(vars)[k] == (
            VarWriteView { name: vars[i].0, data: vars[i].1 });
        assert(boot_restore(b) is Change);
        assert(boot_restore(b)->Change_0.writes[k] == restore_writes(vars)[k]);
    }
    assert(restore_writes(vars).len() == 0 ==> restore_writes(vars) =~= Seq::<
        VarWriteView,
    >::empty());
}


/// The restore of a boot configuration starts as that of a table does: a
/// warning where the files may be out of reach, then what could not be used,
/// and a choice only where there is one.
pub proof fn a_boot_restore_starts_with_what_is_there(
    esp_lost: bool,
    warned: Option<bool>,
    usable: usize,
    unusable: Seq<LineView>,
)
    ensures
        esp_lost ==> boot_opening(esp_lost, None, Some((usable, unusable))) is WarnEsp,
        esp_lost ==> boot_opening(esp_lost, Some(false), Some((usable, unusable))) is Done,
        !esp_lost || warned == Some(true) ==> boot_opening(esp_lost, warned, None) is Load,
        !esp_lost || warned == Some(true) ==> {
            &&& usable == 0 <==> boot_opening(esp_lost, warned, Some((usable, unusable))) is Nothing
            &&& usable > 0 && unusable.len() == 0 <==> boot_opening(
                esp_lost,
                warned,
                Some((usable, unusable)),
            ) is Offer
            &&& usable > 0 && unusable.len() > 0 <==> boot_opening(
                esp_lost,
                warned,
                Some((usable, unusable)),
            ) is Note
        },
{
}

/// Every saved boot configuration has its row, under its name, with where it
/// was found.
pub proof fn every_saved_configuration_has_a_row(list: Seq<SavedBoot>, i: int)
    requires
        0 <= i < list.len(),
    ensures
        boot_rows(list).len() == list.len(),
        boot_rows(list)[i].label == pad_right(list[i].name@, 9) + " "@ + summary_text(
            list[i].snapshot@,
        ),
        boot_rows(list)[i].detail[0].text == "  found on "@ + list[i].source@,
        boot_rows(list)[i].selectable,
{
}

} // verus!
