//! The menus: the rows, and what choosing each one does.

use crate::pages::{add_item, item_view, items_of, no_items, Item, ItemView};
use crate::style::{
    add_line, add_lines, dim, no_lines, shown, styled, warn, wrapped_lines, Line, LineView, Style,
};
use crate::text::texts_of;
use crate::ui::{wrapped, writable_width};
use crate::volumes::{add_help, help_lines};
use vstd::prelude::*;

verus! {

/// What the operator sees at the top of the main menu.
///
/// The hardware is named because that is what someone searching for this
/// will have typed. It is a suffix so that supporting another handheld with
/// the same fault is a deletion rather than a rewrite.
pub const APP_NAME: &'static str =
    "EFI Boot Fixer for Steam Deck - github.com/speed47/efi-boot-fixer";

/// A menu's rows, each carrying what choosing it does.
///
/// An action carried on the row cannot drift from it, which is what makes
/// reordering a menu a safe edit.
pub struct Menu<A> {
    pub actions: Vec<A>,
    pub items: Vec<Item>,
}

impl<A: Copy> Menu<A> {
    /// There is an action for every row.
    pub open spec fn wf(self) -> bool {
        self.actions@.len() == self.items@.len()
    }

    /// What choosing a row does.
    pub fn chosen(&self, row: usize) -> (r: A)
        requires
            self.wf(),
            row < self.items@.len(),
        ensures
            r == self.actions@[row as int],
    {
        self.actions[row]
    }
}

/// One row: what it is called, and the help shown under the list while it
/// is selected.
pub open spec fn menu_row(label: Seq<char>, help: Seq<Seq<char>>) -> ItemView {
    item_view(label, help_lines(help))
}

fn add_row<A>(menu: &mut Menu<A>, action: A, label: &str, help: &[&str])
    ensures
        final(menu).actions@ == old(menu).actions@.push(action),
        items_of(final(menu).items@) == items_of(old(menu).items@).push(
            menu_row(label@, texts_of(help@)),
        ),
{
    let mut detail = no_lines();
    let ghost texts = texts_of(help@);
    let mut i: usize = 0;
    assert(shown(detail@) =~= help_lines(texts.take(0)));
    while i < help.len()
        invariant
            i <= help@.len(),
            texts == texts_of(help@),
            shown(detail@) == help_lines(texts.take(i as int)),
        decreases help@.len() - i,
    {
        let ghost before = help_lines(texts.take(i as int));
        add_help(&mut detail, help[i]);
        i += 1;
        assert(help_lines(texts.take(i as int)) =~= before.push(
            styled("  "@ + texts[i - 1], Style::Dim),
        ));
    }
    assert(texts.take(i as int) =~= texts);
    menu.actions.push(action);
    add_item(&mut menu.items, Item::with_detail(label.to_owned(), detail));
}

/// The top level: one diagnostic, two doors, and the way out.
#[derive(Clone, Copy, PartialEq, Eq, Structural, Debug)]
pub enum Main {
    Overview,
    Gpt,
    Nvram,
    Reboot,
    Exit,
}

/// The row for each action.
pub open spec fn main_row(a: Main) -> ItemView {
    match a {
        Main::Overview => menu_row(
            "Check this machine (read only)"@,
            seq!["Every disk's partition table, the firmware's boot"@, "list, and what is on the ESPs."@],
        ),
        Main::Gpt => menu_row(
            "Partition tables (GPT)  >"@,
            seq!["Check, back up, restore or repair the partition"@, "tables on a disk."@],
        ),
        Main::Nvram => menu_row(
            "Boot entries (NVRAM)  >"@,
            seq!["What the firmware will try to boot, and the"@, "loaders on the ESPs it could point at."@],
        ),
        Main::Reboot => menu_row(
            "Reboot"@,
            seq!["Restart the machine, so the firmware reads the"@, "disks and the boot list again."@],
        ),
        Main::Exit => menu_row(
            "Exit"@,
            seq!["Return to the firmware."@],
        ),
    }
}

/// The actions, top to bottom.
pub open spec fn main_actions() -> Seq<Main> {
    seq![Main::Overview, Main::Gpt, Main::Nvram, Main::Reboot, Main::Exit]
}

/// The top level. Grouped by what an operation acts on. The overview is first
/// because it is what answers the question someone arrives with, and it ends
/// by naming the door to go through.
pub fn main_menu() -> (r: Menu<Main>)
    ensures
        r.wf(),
        r.actions@ == main_actions(),
        items_of(r.items@) == Seq::new(
            main_actions().len(),
            |i: int| main_row(main_actions()[i]),
        ),
{
    let mut menu = Menu { actions: Vec::new(), items: no_items() };
    let help = ["Every disk's partition table, the firmware's boot", "list, and what is on the ESPs."];
    assert(texts_of(help@) =~= seq!["Every disk's partition table, the firmware's boot"@, "list, and what is on the ESPs."@]);
    add_row(&mut menu, Main::Overview, "Check this machine (read only)", help.as_slice());
    let help = ["Check, back up, restore or repair the partition", "tables on a disk."];
    assert(texts_of(help@) =~= seq!["Check, back up, restore or repair the partition"@, "tables on a disk."@]);
    add_row(&mut menu, Main::Gpt, "Partition tables (GPT)  >", help.as_slice());
    let help = ["What the firmware will try to boot, and the", "loaders on the ESPs it could point at."];
    assert(texts_of(help@) =~= seq!["What the firmware will try to boot, and the"@, "loaders on the ESPs it could point at."@]);
    add_row(&mut menu, Main::Nvram, "Boot entries (NVRAM)  >", help.as_slice());
    let help = ["Restart the machine, so the firmware reads the", "disks and the boot list again."];
    assert(texts_of(help@) =~= seq!["Restart the machine, so the firmware reads the"@, "disks and the boot list again."@]);
    add_row(&mut menu, Main::Reboot, "Reboot", help.as_slice());
    let help = ["Return to the firmware."];
    assert(texts_of(help@) =~= seq!["Return to the firmware."@]);
    add_row(&mut menu, Main::Exit, "Exit", help.as_slice());
    assert(menu.actions@ =~= main_actions());
    assert(items_of(menu.items@) =~= Seq::new(
        main_actions().len(),
        |i: int| main_row(main_actions()[i]),
    ));
    assert(items_of(menu.items@).len() == menu.items@.len());
    menu
}

/// Everything that reads or writes a partition table.
#[derive(Clone, Copy, PartialEq, Eq, Structural, Debug)]
pub enum Gpt {
    Check,
    Backup,
    Restore,
    Repair,
    Prevent,
}

/// The row for each action.
pub open spec fn gpt_row(a: Gpt) -> ItemView {
    match a {
        Gpt::Check => menu_row(
            "Check a disk's GPT"@,
            seq!["Read both tables and report what is wrong."@, "Writes nothing."@],
        ),
        Gpt::Backup => menu_row(
            "Back up both GPTs to a file"@,
            seq!["Save the tables to the ESP, to removable media, or"@, "to both, so they can be put back as they are now."@],
        ),
        Gpt::Restore => menu_row(
            "Restore GPTs from a saved backup"@,
            seq!["Write a previously saved snapshot back onto the"@, "disk it was taken from."@],
        ),
        Gpt::Repair => menu_row(
            "Repair main GPT from the secondary"@,
            seq!["Rebuild a corrupt main table from the secondary GPT"@, "at the end of the disk."@],
        ),
        Gpt::Prevent => menu_row(
            "Prevent recurrence (experimental)"@,
            seq!["Lower FirstUsableLBA so the Windows arithmetic that caused"@, "the corruption produces the right answer for this GPT."@, "This is unproven. Read docs/corruption.md first."@],
        ),
    }
}

/// The actions, top to bottom.
pub open spec fn gpt_actions() -> Seq<Gpt> {
    seq![Gpt::Check, Gpt::Backup, Gpt::Restore, Gpt::Repair, Gpt::Prevent]
}

/// Everything that reads or writes a partition table.
///
/// Ordered by what it costs to be wrong: the check writes nothing, the backup
/// writes a file, and the last three rewrite a table. Backing up sits above
/// the three that overwrite because that is the order the operations should
/// be done in.
pub fn gpt_menu() -> (r: Menu<Gpt>)
    ensures
        r.wf(),
        r.actions@ == gpt_actions(),
        items_of(r.items@) == Seq::new(
            gpt_actions().len(),
            |i: int| gpt_row(gpt_actions()[i]),
        ),
{
    let mut menu = Menu { actions: Vec::new(), items: no_items() };
    let help = ["Read both tables and report what is wrong.", "Writes nothing."];
    assert(texts_of(help@) =~= seq!["Read both tables and report what is wrong."@, "Writes nothing."@]);
    add_row(&mut menu, Gpt::Check, "Check a disk's GPT", help.as_slice());
    let help = ["Save the tables to the ESP, to removable media, or", "to both, so they can be put back as they are now."];
    assert(texts_of(help@) =~= seq!["Save the tables to the ESP, to removable media, or"@, "to both, so they can be put back as they are now."@]);
    add_row(&mut menu, Gpt::Backup, "Back up both GPTs to a file", help.as_slice());
    let help = ["Write a previously saved snapshot back onto the", "disk it was taken from."];
    assert(texts_of(help@) =~= seq!["Write a previously saved snapshot back onto the"@, "disk it was taken from."@]);
    add_row(&mut menu, Gpt::Restore, "Restore GPTs from a saved backup", help.as_slice());
    let help = ["Rebuild a corrupt main table from the secondary GPT", "at the end of the disk."];
    assert(texts_of(help@) =~= seq!["Rebuild a corrupt main table from the secondary GPT"@, "at the end of the disk."@]);
    add_row(&mut menu, Gpt::Repair, "Repair main GPT from the secondary", help.as_slice());
    let help = ["Lower FirstUsableLBA so the Windows arithmetic that caused", "the corruption produces the right answer for this GPT.", "This is unproven. Read docs/corruption.md first."];
    assert(texts_of(help@) =~= seq!["Lower FirstUsableLBA so the Windows arithmetic that caused"@, "the corruption produces the right answer for this GPT."@, "This is unproven. Read docs/corruption.md first."@]);
    add_row(&mut menu, Gpt::Prevent, "Prevent recurrence (experimental)", help.as_slice());
    assert(menu.actions@ =~= gpt_actions());
    assert(items_of(menu.items@) =~= Seq::new(
        gpt_actions().len(),
        |i: int| gpt_row(gpt_actions()[i]),
    ));
    assert(items_of(menu.items@).len() == menu.items@.len());
    menu
}

/// Everything that reads or writes the firmware's boot configuration.
#[derive(Clone, Copy, PartialEq, Eq, Structural, Debug)]
pub enum Nvram {
    View,
    Scan,
    Register,
    Default,
    Once,
    Restore,
}

/// The row for each action.
pub open spec fn nvram_row(a: Nvram) -> ItemView {
    match a {
        Nvram::View => menu_row(
            "View the boot entries"@,
            seq!["What the firmware will try, in order, plus any"@, "entry that has fallen out of it."@],
        ),
        Nvram::Scan => menu_row(
            "Scan the ESPs for bootloaders"@,
            seq!["Which loaders are installed on disk, and whether"@, "NVRAM has an entry pointing at each one."@],
        ),
        Nvram::Register => menu_row(
            "Register a bootloader"@,
            seq!["Add a boot entry for a loader that is on an ESP"@, "but that nothing in NVRAM points at."@],
        ),
        Nvram::Default => menu_row(
            "Set the default boot entry"@,
            seq!["Move an entry to the front of the boot order."@, "Changes the order only; no entry is rewritten."@],
        ),
        Nvram::Once => menu_row(
            "Boot something once (next boot only)"@,
            seq!["Try an entry without committing to it. The"@, "firmware clears this as it uses it."@],
        ),
        Nvram::Restore => menu_row(
            "Restore the boot configuration"@,
            seq!["Write back a saved copy of the entries and the"@, "boot order, from a snapshot on any volume here."@],
        ),
    }
}

/// The actions, top to bottom.
pub open spec fn nvram_actions() -> Seq<Nvram> {
    seq![Nvram::View, Nvram::Scan, Nvram::Register, Nvram::Default, Nvram::Once, Nvram::Restore]
}

/// Everything that reads or writes the firmware's boot configuration: the
/// first two screens read only.
pub fn nvram_menu() -> (r: Menu<Nvram>)
    ensures
        r.wf(),
        r.actions@ == nvram_actions(),
        items_of(r.items@) == Seq::new(
            nvram_actions().len(),
            |i: int| nvram_row(nvram_actions()[i]),
        ),
{
    let mut menu = Menu { actions: Vec::new(), items: no_items() };
    let help = ["What the firmware will try, in order, plus any", "entry that has fallen out of it."];
    assert(texts_of(help@) =~= seq!["What the firmware will try, in order, plus any"@, "entry that has fallen out of it."@]);
    add_row(&mut menu, Nvram::View, "View the boot entries", help.as_slice());
    let help = ["Which loaders are installed on disk, and whether", "NVRAM has an entry pointing at each one."];
    assert(texts_of(help@) =~= seq!["Which loaders are installed on disk, and whether"@, "NVRAM has an entry pointing at each one."@]);
    add_row(&mut menu, Nvram::Scan, "Scan the ESPs for bootloaders", help.as_slice());
    let help = ["Add a boot entry for a loader that is on an ESP", "but that nothing in NVRAM points at."];
    assert(texts_of(help@) =~= seq!["Add a boot entry for a loader that is on an ESP"@, "but that nothing in NVRAM points at."@]);
    add_row(&mut menu, Nvram::Register, "Register a bootloader", help.as_slice());
    let help = ["Move an entry to the front of the boot order.", "Changes the order only; no entry is rewritten."];
    assert(texts_of(help@) =~= seq!["Move an entry to the front of the boot order."@, "Changes the order only; no entry is rewritten."@]);
    add_row(&mut menu, Nvram::Default, "Set the default boot entry", help.as_slice());
    let help = ["Try an entry without committing to it. The", "firmware clears this as it uses it."];
    assert(texts_of(help@) =~= seq!["Try an entry without committing to it. The"@, "firmware clears this as it uses it."@]);
    add_row(&mut menu, Nvram::Once, "Boot something once (next boot only)", help.as_slice());
    let help = ["Write back a saved copy of the entries and the", "boot order, from a snapshot on any volume here."];
    assert(texts_of(help@) =~= seq!["Write back a saved copy of the entries and the"@, "boot order, from a snapshot on any volume here."@]);
    add_row(&mut menu, Nvram::Restore, "Restore the boot configuration", help.as_slice());
    assert(menu.actions@ =~= nvram_actions());
    assert(items_of(menu.items@) =~= Seq::new(
        nvram_actions().len(),
        |i: int| nvram_row(nvram_actions()[i]),
    ));
    assert(items_of(menu.items@).len() == menu.items@.len());
    menu
}

/// What stands above the main menu.
pub open spec fn main_intro_lines(
    version: Seq<char>,
    launched_from: Option<Seq<char>>,
    cols: usize,
) -> Seq<LineView> {
    let head = seq![styled("  version "@ + version, Style::Dim)];
    match launched_from {
        Some(path) => head + wrapped_lines(
            "  launched from "@ + path,
            writable_width(cols as int) as nat,
            Style::Dim,
            "    "@,
        ),
        None => head.push(
            styled("  boot volume unknown - no disk will be marked [boot]"@, Style::Warn),
        ),
    }
}

/// What stands above the main menu. `launched_from` is the path of the
/// volume the program came from, where it is known.
pub fn main_intro(version: &str, launched_from: Option<&str>, cols: usize) -> (r: Vec<Line>)
    ensures
        shown(r@) == main_intro_lines(
            version@,
            match launched_from {
                Some(path) => Some(path@),
                None => None,
            },
            cols,
        ),
{
    let mut out = no_lines();
    let mut s = "  version ".to_owned();
    s.push_str(version);
    add_line(&mut out, dim(s));
    match launched_from {
        Some(path) => {
            let mut s = "  launched from ".to_owned();
            s.push_str(path);
            assert(shown(out@) =~= seq![styled("  version "@ + version@, Style::Dim)]);
            add_lines(&mut out, wrapped(s.as_str(), Style::Dim, "    ", cols));
        },
        None => add_line(
            &mut out,
            warn("  boot volume unknown - no disk will be marked [boot]"),
        ),
    }
    out
}

/// What stands above the partition table menu.
pub open spec fn gpt_intro_lines() -> Seq<LineView> {
    seq![
        styled("  Checking reads only; backing up writes one file."@, Style::Dim),
        styled("  The rest rewrite a table, and show what first."@, Style::Dim),
    ]
}

/// What stands above the partition table menu.
pub fn gpt_intro() -> (r: Vec<Line>)
    ensures
        shown(r@) == gpt_intro_lines(),
{
    let mut out = no_lines();
    add_line(&mut out, dim("  Checking reads only; backing up writes one file."));
    add_line(&mut out, dim("  The rest rewrite a table, and show what first."));
    out
}

/// What stands above the boot entries menu.
pub open spec fn nvram_intro_lines() -> Seq<LineView> {
    seq![
        styled("  The first two screens read only."@, Style::Dim),
        styled("  The rest change NVRAM, and say so before they do."@, Style::Dim),
    ]
}

/// What stands above the boot entries menu.
pub fn nvram_intro() -> (r: Vec<Line>)
    ensures
        shown(r@) == nvram_intro_lines(),
{
    let mut out = no_lines();
    add_line(&mut out, dim("  The first two screens read only."));
    add_line(&mut out, dim("  The rest change NVRAM, and say so before they do."));
    out
}


/// Every action stands on its menu once, under the label that says what it
/// does.
pub proof fn every_action_is_on_its_menu(main: Main, gpt: Gpt, nvram: Nvram)
    ensures
        exists|i: int| 0 <= i < main_actions().len() && #[trigger] main_actions()[i] == main,
        exists|i: int| 0 <= i < gpt_actions().len() && #[trigger] gpt_actions()[i] == gpt,
        exists|i: int| 0 <= i < nvram_actions().len() && #[trigger] nvram_actions()[i] == nvram,
        main_actions().no_duplicates(),
        gpt_actions().no_duplicates(),
        nvram_actions().no_duplicates(),
        main_row(main).label == match main {
            Main::Overview => "Check this machine (read only)"@,
            Main::Gpt => "Partition tables (GPT)  >"@,
            Main::Nvram => "Boot entries (NVRAM)  >"@,
            Main::Reboot => "Reboot"@,
            Main::Exit => "Exit"@,
        },
        gpt_row(gpt).label == match gpt {
            Gpt::Check => "Check a disk's GPT"@,
            Gpt::Backup => "Back up both GPTs to a file"@,
            Gpt::Restore => "Restore GPTs from a saved backup"@,
            Gpt::Repair => "Repair main GPT from the secondary"@,
            Gpt::Prevent => "Prevent recurrence (experimental)"@,
        },
        nvram_row(nvram).label == match nvram {
            Nvram::View => "View the boot entries"@,
            Nvram::Scan => "Scan the ESPs for bootloaders"@,
            Nvram::Register => "Register a bootloader"@,
            Nvram::Default => "Set the default boot entry"@,
            Nvram::Once => "Boot something once (next boot only)"@,
            Nvram::Restore => "Restore the boot configuration"@,
        },
        main_row(main).selectable && gpt_row(gpt).selectable && nvram_row(nvram).selectable,
{
    let a = main_actions();
    assert(a[0] == Main::Overview && a[1] == Main::Gpt && a[2] == Main::Nvram && a[3]
        == Main::Reboot && a[4] == Main::Exit);
    let b = gpt_actions();
    assert(b[0] == Gpt::Check && b[1] == Gpt::Backup && b[2] == Gpt::Restore && b[3] == Gpt::Repair
        && b[4] == Gpt::Prevent);
    let c = nvram_actions();
    assert(c[0] == Nvram::View && c[1] == Nvram::Scan && c[2] == Nvram::Register && c[3]
        == Nvram::Default && c[4] == Nvram::Once && c[5] == Nvram::Restore);
}

} // verus!
