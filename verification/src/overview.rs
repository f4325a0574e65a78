//! Everything the tool can find out without writing, on one page.
//!
//! The question people actually arrive with is not "is my GPT valid" but
//! "why will this thing not boot". This screen runs every diagnostic there
//! is, and ends by naming the menu to go to.

use crate::bootview::{slot_title, slot_with_name};
use crate::disks::Disk;
use crate::espscan::{count_unregistered, unregistered_among, EspScan};
use crate::nvram::{outside, BootState};
use crate::bootopt::LoadOption;
use crate::report::{severity, verdict_line, verdict_message, verdict_style};
use crate::style::{
    add_line, add_lines, bad, blank_line, dim, good, key, line, no_lines, shown, styled, title,
    warn, Line, LineView, Style, in_either,
};
use crate::text::{dec, dec_text};
use vstd::prelude::*;

verus! {

/// "1 entry" or "3 entries".
pub open spec fn counted(n: nat, one: Seq<char>, many: Seq<char>) -> Seq<char> {
    if n == 1 {
        "1 "@ + one
    } else {
        dec(n) + " "@ + many
    }
}

/// "1 entry" or "3 entries": a screen someone reads while their machine is
/// broken should not also be telling them it found 1 entries.
pub fn count(n: usize, one: &str, many: &str) -> (r: String)
    ensures
        r@ == counted(n as nat, one@, many@),
{
    if n == 1 {
        let mut s = "1 ".to_owned();
        s.push_str(one);
        s
    } else {
        let mut s = dec_text(n as u64);
        s.push_str(" ");
        s.push_str(many);
        s
    }
}

/// One disk.
pub open spec fn disk_lines(d: Disk) -> Seq<LineView> {
    seq![
        styled("    "@ + d.label_text(), Style::Key),
        match d.analysis {
            Ok(a) => styled("      GPT: "@ + verdict_message(a.verdict), severity(a.verdict)),
            Err(e) => styled("      GPT: could not be read - "@ + e@, Style::Bad),
        },
    ]
}

/// What to do about it, if anything can be done.
pub open spec fn disk_advice(d: Disk) -> Seq<LineView> {
    match d.analysis {
        Ok(a) => if a.planned() {
            seq![
                styled(
                    "  Disk "@ + dec(d.number as nat) + " has a defect this tool can fix."@,
                    Style::Warn,
                ),
                styled("    Partition tables (GPT) -> Repair main GPT"@, Style::Dim),
            ]
        } else {
            Seq::empty()
        },
        Err(_) => Seq::empty(),
    }
}

/// The first `n` disks.
pub open spec fn disks_lines(disks: Seq<Disk>, n: nat) -> Seq<LineView>
    decreases n,
{
    if n == 0 {
        Seq::empty()
    } else {
        disks_lines(disks, (n - 1) as nat) + disk_lines(disks[n - 1])
    }
}

/// What to do about the first `n` disks.
pub open spec fn disks_advice(disks: Seq<Disk>, n: nat) -> Seq<LineView>
    decreases n,
{
    if n == 0 {
        Seq::empty()
    } else {
        disks_advice(disks, (n - 1) as nat) + disk_advice(disks[n - 1])
    }
}

/// The disks.
pub open spec fn disk_part(disks: Seq<Disk>) -> Seq<LineView> {
    let head = seq![styled("  Disks"@, Style::Title)];
    if disks.len() == 0 {
        head.push(styled("    No fixed, writable, whole disk was found."@, Style::Bad))
    } else {
        head + disks_lines(disks, disks.len())
    }
}

/// How many of the first `n` entries will not decode.
pub open spec fn undecodable(entries: Seq<(u16, Result<LoadOption, String>)>, n: nat) -> nat
    decreases n,
{
    if n == 0 {
        0
    } else {
        let rest = undecodable(entries, (n - 1) as nat);
        if entries[n - 1].1 is Err {
            rest + 1
        } else {
            rest
        }
    }
}

/// How many entries there are, and why there may be more.
pub open spec fn store_lines(state: BootState) -> Seq<LineView> {
    let head = seq![blank_line(), styled("  Boot entries in NVRAM"@, Style::Title)];
    (match state.truncated {
        Some(e) => head.push(styled("    "@ + e@, Style::Bad)),
        None => head,
    }).push(
        if state.entries@.len() == 0 {
            styled("    There are no boot entries at all."@, Style::Bad)
        } else {
            styled(
                "    "@ + counted(state.entries@.len(), "entry"@, "entries"@) + " in the store"@,
                Style::Normal,
            )
        },
    )
}

/// The boot order.
pub open spec fn order_part(state: BootState) -> Seq<LineView> {
    let order = match state.order {
        Err(e) => seq![styled("    BootOrder cannot be read - "@ + e@, Style::Bad)],
        Ok(order) => if order@.len() == 0 {
            seq![
                styled("    The boot order is empty, so the firmware has no"@, Style::Bad),
                styled("    list to try."@, Style::Bad),
            ]
        } else {
            seq![
                styled(
                    "    "@ + counted(order@.len(), "entry"@, "entries"@) + " in the boot order"@,
                    Style::Normal,
                ),
                styled("      first: "@ + slot_title(state, order@[0]), Style::Dim),
            ]
        },
    };
    match state.current {
        Some(slot) => order.push(
            styled("      this boot used "@ + slot_title(state, slot), Style::Dim),
        ),
        None => order,
    }
}

/// What is wrong with the entries.
pub open spec fn entry_part(state: BootState) -> Seq<LineView> {
    let broken = undecodable(state.entries@, state.entries@.len());
    let lost = outside(state.entries@, state.ordered(), state.entries@.len()).len();
    (if broken > 0 {
        seq![
            styled(
                "    "@ + counted(broken, "entry"@, "entries"@) + " will not decode"@,
                Style::Bad,
            ),
        ]
    } else {
        Seq::empty()
    }) + (if lost > 0 {
        seq![
            styled(
                "    "@ + counted(lost, "entry is"@, "entries are"@)
                    + " not in the boot order, and will not be offered"@,
                Style::Warn,
            ),
        ]
    } else {
        Seq::empty()
    })
}

/// What to do about the boot entries.
pub open spec fn nvram_advice(state: BootState) -> Seq<LineView> {
    let lost = outside(state.entries@, state.ordered(), state.entries@.len()).len();
    (match state.order {
        Ok(order) => if order@.len() == 0 {
            seq![
                styled("  Nothing is in the boot order."@, Style::Warn),
                styled("    Boot entries (NVRAM) -> Set the default boot entry"@, Style::Dim),
            ]
        } else {
            Seq::empty()
        },
        Err(_) => Seq::empty(),
    }) + (if lost > 0 {
        seq![
            styled("  An installed entry has fallen out of the boot order."@, Style::Warn),
            styled("    Boot entries (NVRAM) -> Set the default boot entry"@, Style::Dim),
        ]
    } else {
        Seq::empty()
    })
}

/// The bootloaders.
pub open spec fn esp_part(scan: EspScan) -> Seq<LineView> {
    let head = seq![blank_line(), styled("  Bootloaders on the ESPs"@, Style::Title)];
    let n = unregistered_among(scan.candidates@, scan.candidates@.len());
    if scan.volumes@.len() == 0 {
        head.push(styled("    No EFI System Partition was found on a fixed disk."@, Style::Bad))
    } else {
        let held = head.push(
            styled(
                "    "@ + counted(scan.volumes@.len(), "ESP"@, "ESPs"@) + " holding "@ + counted(
                    scan.candidates@.len(),
                    "bootloader"@,
                    "bootloaders"@,
                ),
                Style::Normal,
            ),
        );
        let opened = if scan.unreadable@.len() > 0 {
            held.push(
                styled(
                    "    "@ + counted(scan.unreadable@.len(), "ESP"@, "ESPs"@)
                        + " could not be opened"@,
                    Style::Bad,
                ),
            )
        } else {
            held
        };
        if n > 0 {
            opened.push(
                styled(
                    "    "@ + counted(n, "loader"@, "loaders"@) + " nothing in NVRAM points at"@,
                    Style::Warn,
                ),
            )
        } else {
            opened
        }
    }
}

/// What to do about the bootloaders.
pub open spec fn esp_advice(scan: EspScan) -> Seq<LineView> {
    if scan.volumes@.len() > 0 && unregistered_among(scan.candidates@, scan.candidates@.len())
        > 0 {
        seq![
            styled("  A loader on an ESP has no boot entry pointing at it."@, Style::Warn),
            styled("    Boot entries (NVRAM) -> Register a bootloader"@, Style::Dim),
        ]
    } else {
        Seq::empty()
    }
}

/// Everything there is to do next.
pub open spec fn advice(disks: Seq<Disk>, state: BootState, scan: EspScan) -> Seq<LineView> {
    disks_advice(disks, disks.len()) + nvram_advice(state) + esp_advice(scan)
}

/// What the page ends with.
pub open spec fn next_lines(next: Seq<LineView>) -> Seq<LineView> {
    (if next.len() == 0 {
        seq![blank_line(), styled("  Nothing here looks broken."@, Style::Good)]
    } else {
        seq![blank_line(), styled("  What to do next"@, Style::Title)] + next
    }) + seq![
        blank_line(),
        styled("  Nothing was written. This screen never modifies anything."@, Style::Good),
    ]
}

/// The whole page.
pub open spec fn overview_lines(disks: Seq<Disk>, state: BootState, scan: EspScan) -> Seq<
    LineView,
> {
    disk_part(disks) + store_lines(state) + order_part(state) + entry_part(state) + esp_part(scan)
        + next_lines(advice(disks, state, scan))
}

fn render_disks(disks: &[Disk], next: &mut Vec<Line>) -> (r: Vec<Line>)
    ensures
        shown(r@) == disk_part(disks@),
        shown(final(next)@) == shown(old(next)@) + disks_advice(disks@, disks@.len()),
{
    let ghost before = shown(next@);
    let mut out = no_lines();
    add_line(&mut out, title("  Disks"));
    let ghost head = shown(out@);
    if disks.len() == 0 {
        add_line(&mut out, bad("    No fixed, writable, whole disk was found."));
        assert(shown(next@) =~= before + disks_advice(disks@, 0));
        return out;
    }
    let mut i: usize = 0;
    assert(shown(out@) =~= head + disks_lines(disks@, 0));
    assert(shown(next@) =~= before + disks_advice(disks@, 0));
    while i < disks.len()
        invariant
            i <= disks@.len(),
            shown(out@) == head + disks_lines(disks@, i as nat),
            shown(next@) == before + disks_advice(disks@, i as nat),
        decreases disks@.len() - i,
    {
        let d = &disks[i];
        let mut s = "    ".to_owned();
        s.push_str(d.label().as_str());
        add_line(&mut out, key(s));
        match &d.analysis {
            Ok(a) => {
                let mut s = "      GPT: ".to_owned();
                s.push_str(verdict_line(a.verdict));
                add_line(&mut out, Line::new(s, verdict_style(a.verdict)));
                if a.has_plan() {
                    let mut s = "  Disk ".to_owned();
                    s.push_str(dec_text(d.number as u64).as_str());
                    s.push_str(" has a defect this tool can fix.");
                    add_line(next, warn(s));
                    add_line(next, dim("    Partition tables (GPT) -> Repair main GPT"));
                }
            },
            Err(e) => {
                let mut s = "      GPT: could not be read - ".to_owned();
                s.push_str(e.as_str());
                add_line(&mut out, bad(s));
            },
        }
        assert(shown(out@) =~= head + (disks_lines(disks@, i as nat) + disk_lines(
            disks@[i as int],
        )));
        assert(shown(next@) =~= before + (disks_advice(disks@, i as nat) + disk_advice(
            disks@[i as int],
        )));
        i += 1;
    }
    out
}

fn count_undecodable(state: &BootState) -> (r: usize)
    ensures
        r == undecodable(state.entries@, state.entries@.len()),
{
    let mut n: usize = 0;
    let mut i: usize = 0;
    assert(state.entries.len() == state.entries@.len());
    while i < state.entries.len()
        invariant
            i <= state.entries@.len(),
            state.entries@.len() <= usize::MAX,
            n <= i,
            n == undecodable(state.entries@, i as nat),
        decreases state.entries@.len() - i,
    {
        if state.entries[i].1.is_err() {
            n += 1;
        }
        i += 1;
    }
    n
}

fn counted_line(n: usize, one: &str, many: &str, rest: &str) -> (r: String)
    ensures
        r@ == "    "@ + counted(n as nat, one@, many@) + rest@,
{
    let mut s = "    ".to_owned();
    s.push_str(count(n, one, many).as_str());
    s.push_str(rest);
    s
}

fn render_store(state: &BootState) -> (r: Vec<Line>)
    ensures
        shown(r@) == store_lines(*state),
{
    let mut out = no_lines();
    add_line(&mut out, Line::blank());
    add_line(&mut out, title("  Boot entries in NVRAM"));
    if let Some(e) = &state.truncated {
        let mut s = "    ".to_owned();
        s.push_str(e.as_str());
        add_line(&mut out, bad(s));
    }
    if state.entries.len() == 0 {
        add_line(&mut out, bad("    There are no boot entries at all."));
    } else {
        let s = counted_line(state.entries.len(), "entry", "entries", " in the store");
        add_line(&mut out, line(s));
    }
    assert(shown(out@) =~= store_lines(*state));
    out
}

fn render_order(state: &BootState) -> (r: Vec<Line>)
    ensures
        shown(r@) == order_part(*state),
{
    let mut out = no_lines();
    match &state.order {
        Err(e) => {
            let mut s = "    BootOrder cannot be read - ".to_owned();
            s.push_str(e.as_str());
            add_line(&mut out, bad(s));
        },
        Ok(order) => {
            if order.len() == 0 {
                add_line(&mut out, bad("    The boot order is empty, so the firmware has no"));
                add_line(&mut out, bad("    list to try."));
            } else {
                let s = counted_line(order.len(), "entry", "entries", " in the boot order");
                add_line(&mut out, line(s));
                let mut s = "      first: ".to_owned();
                s.push_str(slot_with_name(state, order[0]).as_str());
                add_line(&mut out, dim(s));
            }
        },
    }
    if let Some(slot) = state.current {
        let mut s = "      this boot used ".to_owned();
        s.push_str(slot_with_name(state, slot).as_str());
        add_line(&mut out, dim(s));
    }
    assert(shown(out@) =~= order_part(*state));
    out
}

fn render_entries(state: &BootState, next: &mut Vec<Line>) -> (r: Vec<Line>)
    ensures
        shown(r@) == entry_part(*state),
        shown(final(next)@) == shown(old(next)@) + nvram_advice(*state),
{
    let ghost before = shown(next@);
    let mut out = no_lines();
    if let Ok(order) = &state.order {
        if order.len() == 0 {
            add_line(next, warn("  Nothing is in the boot order."));
            add_line(next, dim("    Boot entries (NVRAM) -> Set the default boot entry"));
        }
    }
    let broken: usize = count_undecodable(state);
    if broken > 0 {
        add_line(&mut out, bad(counted_line(broken, "entry", "entries", " will not decode")));
    }
    let orphans = state.orphans();
    if orphans.len() > 0 {
        let s = counted_line(
            orphans.len(),
            "entry is",
            "entries are",
            " not in the boot order, and will not be offered",
        );
        add_line(&mut out, warn(s));
        add_line(next, warn("  An installed entry has fallen out of the boot order."));
        add_line(next, dim("    Boot entries (NVRAM) -> Set the default boot entry"));
    }
    assert(shown(out@) =~= entry_part(*state));
    assert(shown(next@) =~= before + nvram_advice(*state));
    out
}

fn render_esps(scan: &EspScan, next: &mut Vec<Line>) -> (r: Vec<Line>)
    ensures
        shown(r@) == esp_part(*scan),
        shown(final(next)@) == shown(old(next)@) + esp_advice(*scan),
{
    let ghost before = shown(next@);
    let mut out = no_lines();
    add_line(&mut out, Line::blank());
    add_line(&mut out, title("  Bootloaders on the ESPs"));
    if scan.volumes.len() == 0 {
        add_line(&mut out, bad("    No EFI System Partition was found on a fixed disk."));
    } else {
        let mut s = counted_line(scan.volumes.len(), "ESP", "ESPs", " holding ");
        s.push_str(count(scan.candidates.len(), "bootloader", "bootloaders").as_str());
        add_line(&mut out, line(s));
        if scan.unreadable.len() > 0 {
            let s = counted_line(scan.unreadable.len(), "ESP", "ESPs", " could not be opened");
            add_line(&mut out, bad(s));
        }
        let n: usize = count_unregistered(scan.candidates.as_slice());
        if n > 0 {
            let s = counted_line(n, "loader", "loaders", " nothing in NVRAM points at");
            add_line(&mut out, warn(s));
            add_line(next, warn("  A loader on an ESP has no boot entry pointing at it."));
            add_line(next, dim("    Boot entries (NVRAM) -> Register a bootloader"));
        }
    }
    assert(shown(out@) =~= esp_part(*scan));
    assert(shown(next@) =~= before + esp_advice(*scan));
    out
}

/// Everything the tool can find out without writing.
///
/// The advice at the bottom is built alongside the findings, so it can only
/// say things that were actually observed.
pub fn run_overview(disks: &[Disk], state: &BootState, scan: &EspScan) -> (r: Vec<Line>)
    ensures
        shown(r@) == overview_lines(disks@, *state, *scan),
{
    let mut next = no_lines();
    let mut out = render_disks(disks, &mut next);
    add_lines(&mut out, render_store(state));
    add_lines(&mut out, render_order(state));
    add_lines(&mut out, render_entries(state, &mut next));
    add_lines(&mut out, render_esps(scan, &mut next));
    assert(shown(next@) =~= advice(disks@, *state, *scan));
    assert(shown(next@).len() == next@.len());
    let mut end = no_lines();
    add_line(&mut end, Line::blank());
    if next.len() == 0 {
        add_line(&mut end, good("  Nothing here looks broken."));
    } else {
        add_line(&mut end, title("  What to do next"));
        add_lines(&mut end, next);
    }
    add_line(&mut end, Line::blank());
    add_line(&mut end, good("  Nothing was written. This screen never modifies anything."));
    assert(shown(end@) =~= next_lines(advice(disks@, *state, *scan)));
    add_lines(&mut out, end);
    out
}

/// A machine is said to look sound exactly where there is nothing to do: no
/// disk can be repaired, the boot order is not empty and misses no entry,
/// and every loader found has an entry pointing at it.
pub proof fn sound_means_nothing_to_do(disks: Seq<Disk>, state: BootState, scan: EspScan)
    ensures
        advice(disks, state, scan).len() == 0 <==> {
            &&& forall|i: int|
                0 <= i < disks.len() ==> ((#[trigger] disks[i]).analysis matches Ok(a)
                    ==> !a.planned())
            &&& (state.order matches Ok(order) ==> order@.len() > 0)
            &&& outside(state.entries@, state.ordered(), state.entries@.len()).len() == 0
            &&& scan.volumes@.len() == 0 || unregistered_among(
                scan.candidates@,
                scan.candidates@.len(),
            ) == 0
        },
{
    sound_disks(disks, disks.len());
}

proof fn sound_disks(disks: Seq<Disk>, n: nat)
    requires
        n <= disks.len(),
    ensures
        disks_advice(disks, n).len() == 0 <==> forall|i: int|
            0 <= i < n ==> ((#[trigger] disks[i]).analysis matches Ok(a) ==> !a.planned()),
    decreases n,
{
    if n > 0 {
        sound_disks(disks, (n - 1) as nat);
        let last = disks[n - 1];
        assert(disk_advice(last).len() == 0 <==> (last.analysis matches Ok(a) ==> !a.planned()));
        if disks_advice(disks, n).len() == 0 {
            assert forall|i: int| 0 <= i < n implies ((#[trigger] disks[i]).analysis matches Ok(a)
                ==> !a.planned()) by {
                if i < n - 1 {
                }
            }
        }
    }
}

proof fn disks_are_listed(disks: Seq<Disk>, n: nat, i: int, x: LineView)
    requires
        0 <= i < n <= disks.len(),
    ensures
        disk_lines(disks[i]).contains(x) ==> disks_lines(disks, n).contains(x),
        disk_advice(disks[i]).contains(x) ==> disks_advice(disks, n).contains(x),
    decreases n,
{
    in_either(disks_lines(disks, (n - 1) as nat), disk_lines(disks[n - 1]), x);
    in_either(disks_advice(disks, (n - 1) as nat), disk_advice(disks[n - 1]), x);
    if i < n - 1 {
        disks_are_listed(disks, (n - 1) as nat, i, x);
    }
}

proof fn a_part_is_on_the_page(disks: Seq<Disk>, state: BootState, scan: EspScan, x: LineView)
    ensures
        disk_part(disks).contains(x) || store_lines(state).contains(x) || order_part(
            state,
        ).contains(x) || entry_part(state).contains(x) || esp_part(scan).contains(x)
            || disks_advice(disks, disks.len()).contains(x) || nvram_advice(state).contains(x)
            || esp_advice(scan).contains(x) ==> overview_lines(disks, state, scan).contains(x),
{
    let a = disk_part(disks);
    let b = store_lines(state);
    let c = order_part(state);
    let d = entry_part(state);
    let e = esp_part(scan);
    let next = advice(disks, state, scan);
    let f = next_lines(next);
    in_either(a, b, x);
    in_either(a + b, c, x);
    in_either(a + b + c, d, x);
    in_either(a + b + c + d, e, x);
    in_either(a + b + c + d + e, f, x);
    in_either(disks_advice(disks, disks.len()), nvram_advice(state), x);
    in_either(disks_advice(disks, disks.len()) + nvram_advice(state), esp_advice(scan), x);
    let head = seq![blank_line(), styled("  What to do next"@, Style::Title)];
    let tail = seq![
        blank_line(),
        styled("  Nothing was written. This screen never modifies anything."@, Style::Good),
    ];
    if next.contains(x) {
        in_either(head, next, x);
        in_either(head + next, tail, x);
    }
}

/// Every disk is on the page with what was found on it, and every one with a
/// defect that can be fixed here is named with the menu that fixes it.
pub proof fn every_disk_is_on_the_page(
    disks: Seq<Disk>,
    state: BootState,
    scan: EspScan,
    i: int,
)
    requires
        0 <= i < disks.len(),
    ensures
        overview_lines(disks, state, scan).contains(styled("    "@ + disks[i].label_text(), Style::Key)),
        disks[i].analysis matches Ok(a) ==> overview_lines(disks, state, scan).contains(
            styled("      GPT: "@ + verdict_message(a.verdict), severity(a.verdict)),
        ),
        disks[i].analysis matches Err(e) ==> overview_lines(disks, state, scan).contains(
            styled("      GPT: could not be read - "@ + e@, Style::Bad),
        ),
        disks[i].analysis matches Ok(a) ==> (a.planned() ==> overview_lines(
            disks,
            state,
            scan,
        ).contains(
            styled(
                "  Disk "@ + dec(disks[i].number as nat) + " has a defect this tool can fix."@,
                Style::Warn,
            ),
        ) && overview_lines(disks, state, scan).contains(
            styled("    Partition tables (GPT) -> Repair main GPT"@, Style::Dim),
        )),
{
    let head = seq![styled("  Disks"@, Style::Title)];
    let x0 = disk_lines(disks[i])[0];
    let x1 = disk_lines(disks[i])[1];
    assert(disk_lines(disks[i]).contains(x0) && disk_lines(disks[i]).contains(x1));
    disks_are_listed(disks, disks.len(), i, x0);
    disks_are_listed(disks, disks.len(), i, x1);
    in_either(head, disks_lines(disks, disks.len()), x0);
    in_either(head, disks_lines(disks, disks.len()), x1);
    a_part_is_on_the_page(disks, state, scan, x0);
    a_part_is_on_the_page(disks, state, scan, x1);
    if let Ok(a) = disks[i].analysis {
        if a.planned() {
            let y0 = disk_advice(disks[i])[0];
            let y1 = disk_advice(disks[i])[1];
            assert(disk_advice(disks[i]).contains(y0) && disk_advice(disks[i]).contains(y1));
            disks_are_listed(disks, disks.len(), i, y0);
            disks_are_listed(disks, disks.len(), i, y1);
            a_part_is_on_the_page(disks, state, scan, y0);
            a_part_is_on_the_page(disks, state, scan, y1);
        }
    }
}

proof fn undecodable_is_counted(entries: Seq<(u16, Result<LoadOption, String>)>, n: nat)
    requires
        n <= entries.len(),
    ensures
        undecodable(entries, n) == entries.take(n as int).filter(
            |e: (u16, Result<LoadOption, String>)| e.1 is Err,
        ).len(),
    decreases n,
{
    reveal(Seq::filter);
    if n > 0 {
        undecodable_is_counted(entries, (n - 1) as nat);
        assert(entries.take(n as int).drop_last() =~= entries.take(n - 1));
    }
}

/// An emptied boot order, entries that fell out of it, entries that cannot be
/// read and loaders nothing points at are each said to be there, and each that
/// can be put right is named with the menu that does it.
pub proof fn what_is_wrong_with_booting_is_on_the_page(
    disks: Seq<Disk>,
    state: BootState,
    scan: EspScan,
)
    ensures
        state.order matches Ok(order) ==> (order@.len() == 0 ==> overview_lines(
            disks,
            state,
            scan,
        ).contains(styled("  Nothing is in the boot order."@, Style::Warn)) && overview_lines(
            disks,
            state,
            scan,
        ).contains(styled("    Boot entries (NVRAM) -> Set the default boot entry"@, Style::Dim))),
        state.order matches Err(e) ==> overview_lines(disks, state, scan).contains(
            styled("    BootOrder cannot be read - "@ + e@, Style::Bad),
        ),
        outside(state.entries@, state.ordered(), state.entries@.len()).len() > 0 ==> overview_lines(
            disks,
            state,
            scan,
        ).contains(styled("  An installed entry has fallen out of the boot order."@, Style::Warn)),
        ({
            let n = state.entries@.filter(|e: (u16, Result<LoadOption, String>)| e.1 is Err).len();
            n > 0 ==> overview_lines(disks, state, scan).contains(
                styled("    "@ + counted(n, "entry"@, "entries"@) + " will not decode"@, Style::Bad),
            )
        }),
        scan.volumes@.len() > 0 && unregistered_among(scan.candidates@, scan.candidates@.len()) > 0
            ==> overview_lines(disks, state, scan).contains(
            styled("  A loader on an ESP has no boot entry pointing at it."@, Style::Warn),
        ) && overview_lines(disks, state, scan).contains(
            styled("    Boot entries (NVRAM) -> Register a bootloader"@, Style::Dim),
        ),
        state.truncated matches Some(e) ==> overview_lines(disks, state, scan).contains(
            styled("    "@ + e@, Style::Bad),
        ),
{
    let lost = outside(state.entries@, state.ordered(), state.entries@.len()).len();
    let a = nvram_advice(state);
    undecodable_is_counted(state.entries@, state.entries@.len());
    assert(state.entries@.take(state.entries@.len() as int) =~= state.entries@);
    if let Ok(order) = state.order {
        if order@.len() == 0 {
            let x = styled("  Nothing is in the boot order."@, Style::Warn);
            let y = styled("    Boot entries (NVRAM) -> Set the default boot entry"@, Style::Dim);
            assert(a[0] == x && a[1] == y);
            a_part_is_on_the_page(disks, state, scan, x);
            a_part_is_on_the_page(disks, state, scan, y);
        }
    }
    if let Err(e) = state.order {
        let x = styled("    BootOrder cannot be read - "@ + e@, Style::Bad);
        assert(order_part(state)[0] == x);
        a_part_is_on_the_page(disks, state, scan, x);
    }
    if lost > 0 {
        let x = styled("  An installed entry has fallen out of the boot order."@, Style::Warn);
        assert(a[a.len() - 2] == x);
        a_part_is_on_the_page(disks, state, scan, x);
    }
    let n = undecodable(state.entries@, state.entries@.len());
    if n > 0 {
        let x = styled("    "@ + counted(n, "entry"@, "entries"@) + " will not decode"@, Style::Bad);
        assert(entry_part(state)[0] == x);
        a_part_is_on_the_page(disks, state, scan, x);
    }
    if esp_advice(scan).len() > 0 {
        let x = esp_advice(scan)[0];
        let y = esp_advice(scan)[1];
        assert(esp_advice(scan).contains(x) && esp_advice(scan).contains(y));
        a_part_is_on_the_page(disks, state, scan, x);
        a_part_is_on_the_page(disks, state, scan, y);
    }
    if let Some(e) = state.truncated {
        let x = styled("    "@ + e@, Style::Bad);
        assert(store_lines(state)[2] == x);
        a_part_is_on_the_page(disks, state, scan, x);
    }
}

} // verus!
