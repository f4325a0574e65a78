//! What the firmware's boot configuration says, for the operator.
//!
//! The device path of an entry is put into words by the firmware, so every
//! function that shows one is handed the words: `paths` holds, for each
//! entry of the state, what [`crate::paths::boot_path_note`] or the firmware
//! says of it.

use crate::bootopt::{
    flag_lines, render_flags, slot_name, slot_text, summary, summary_text, LoadOption,
};
use crate::nvram::{entry_from, outside, BootState};
use crate::style::{
    add_line, add_lines, bad, blank_line, dim, good, key, line, no_lines, shown, styled, title,
    warn, wrapped_lines, Line, LineView, Style, in_either,
};
use crate::text::{
    dec, dec_text, pad_left, pad_left_text, succ_text, trim_start, trimmed_start,
};
use crate::ui::{wrapped, writable_width};
use vstd::prelude::*;

verus! {

// -------------------------------------------------------------- one entry

/// The flags of an entry, indented to stand below its device path.
pub open spec fn indented(lines: Seq<LineView>) -> Seq<LineView> {
    Seq::new(
        lines.len(),
        |i: int| styled("      "@ + trimmed_start(lines[i].text), lines[i].style),
    )
}

/// One entry, as it appears on the boot entries page, behind `head`.
pub open spec fn entry_block(
    head: Seq<char>,
    slot: u16,
    entry: Result<LoadOption, String>,
    path: Seq<char>,
    cols: usize,
) -> Seq<LineView> {
    match entry {
        Err(e) => seq![styled(head + (slot_text(slot) + "  cannot be read - "@ + e@), Style::Bad)],
        Ok(o) => {
            let first = seq![
                styled(
                    head + summary_text(slot, o.active(), o.description@),
                    if o.active() {
                        Style::Normal
                    } else {
                        Style::Dim
                    },
                ),
            ];
            let named = if path.len() == 0 {
                first
            } else {
                first + wrapped_lines(
                    "      "@ + path,
                    writable_width(cols as int) as nat,
                    Style::Dim,
                    "        "@,
                )
            };
            named + indented(flag_lines(o))
        },
    }
}

fn add_indented(out: &mut Vec<Line>, lines: Vec<Line>)
    ensures
        shown(final(out)@) == shown(old(out)@) + indented(shown(lines@)),
{
    let ghost before = shown(out@);
    let ghost all = shown(lines@);
    let mut i: usize = 0;
    assert(shown(out@) =~= before + indented(all.take(0)));
    while i < lines.len()
        invariant
            i <= lines@.len(),
            all == shown(lines@),
            shown(out@) == before + indented(all.take(i as int)),
        decreases lines@.len() - i,
    {
        let ghost now = indented(all.take(i as int));
        let mut s = "      ".to_owned();
        s.push_str(trim_start(lines[i].text.as_str()).as_str());
        add_line(out, Line::new(s, lines[i].style));
        i += 1;
        assert(indented(all.take(i as int)) =~= now.push(
            styled("      "@ + trimmed_start(all[i - 1].text), all[i - 1].style),
        ));
        assert(shown(out@) =~= before + indented(all.take(i as int)));
    }
    assert(all.take(i as int) =~= all);
}

fn render_behind(
    head: &str,
    slot: u16,
    entry: &Result<LoadOption, String>,
    path: &str,
    cols: usize,
) -> (r: Vec<Line>)
    ensures
        shown(r@) == entry_block(head@, slot, *entry, path@, cols),
{
    let mut out = no_lines();
    match entry {
        Err(e) => {
            let mut t = slot_name(slot);
            t.push_str("  cannot be read - ");
            t.push_str(e.as_str());
            let mut s = head.to_owned();
            s.push_str(t.as_str());
            add_line(&mut out, bad(s));
        },
        Ok(o) => {
            let mut s = head.to_owned();
            s.push_str(summary(slot, o).as_str());
            add_line(&mut out, Line::new(s, o.style()));
            if !path.is_empty() {
                let mut s = "      ".to_owned();
                s.push_str(path);
                add_lines(&mut out, wrapped(s.as_str(), Style::Dim, "        ", cols));
            }
            add_indented(&mut out, render_flags(o));
        },
    }
    assert(shown(out@) =~= entry_block(head@, slot, *entry, path@, cols));
    out
}

/// One entry, as it appears on the boot entries page.
pub fn render_boot_entry(
    slot: u16,
    entry: &Result<LoadOption, String>,
    path: &str,
    cols: usize,
) -> (r: Vec<Line>)
    ensures
        shown(r@) == entry_block("  "@, slot, *entry, path@, cols),
{
    render_behind("  ", slot, entry, path, cols)
}

/// A slot and what stands in it.
pub open spec fn slot_title(state: BootState, slot: u16) -> Seq<char> {
    slot_text(slot) + (match state.found(slot) {
        Some(Ok(o)) => "  "@ + o.description@,
        Some(Err(_)) => "  (unreadable)"@,
        None => "  (no such entry)"@,
    })
}

/// A slot and what stands in it.
pub fn slot_with_name(state: &BootState, slot: u16) -> (r: String)
    ensures
        r@ == slot_title(*state, slot),
{
    let mut s = slot_name(slot);
    match state.get(slot) {
        Some(Ok(o)) => {
            let mut t = "  ".to_owned();
            t.push_str(o.description.as_str());
            s.push_str(t.as_str());
        },
        Some(Err(_)) => s.push_str("  (unreadable)"),
        None => s.push_str("  (no such entry)"),
    }
    s
}

/// Where the entry of a slot stands among those from `i` on.
pub open spec fn place_from(
    entries: Seq<(u16, Result<LoadOption, String>)>,
    slot: u16,
    i: int,
) -> Option<int>
    decreases entries.len() - i,
{
    if i < 0 || i >= entries.len() {
        None
    } else if entries[i].0 == slot {
        Some(i)
    } else {
        place_from(entries, slot, i + 1)
    }
}

/// Where the entry of a slot stands.
pub(crate) fn place_of(state: &BootState, slot: u16) -> (r: Option<usize>)
    ensures
        match r {
            Some(i) => {
                &&& place_from(state.entries@, slot, 0) == Some(i as int)
                &&& i < state.entries@.len()
                &&& state.entries@[i as int].0 == slot
                &&& state.found(slot) == Some(state.entries@[i as int].1)
            },
            None => place_from(state.entries@, slot, 0) is None && state.found(slot) is None,
        },
{
    let mut i: usize = 0;
    while i < state.entries.len()
        invariant
            i <= state.entries@.len(),
            place_from(state.entries@, slot, 0) == place_from(state.entries@, slot, i as int),
            entry_from(state.entries@, slot, 0) == entry_from(state.entries@, slot, i as int),
        decreases state.entries@.len() - i,
    {
        if state.entries[i].0 == slot {
            return Some(i);
        }
        i += 1;
    }
    None
}

/// What is said of the device path in a slot.
pub open spec fn path_in(state: BootState, paths: Seq<String>, slot: u16) -> Seq<char> {
    match place_from(state.entries@, slot, 0) {
        Some(i) => paths[i]@,
        None => Seq::empty(),
    }
}

// ----------------------------------------------------------- the whole view

/// The number of a place in a list, from one.
pub open spec fn position_head(i: int) -> Seq<char> {
    "  "@ + pad_left(dec((i + 1) as nat), 2, ' ') + ". "@
}

/// The entry at a place in the boot order. The position is numbered, so
/// "third in the list" is readable off the screen rather than counted.
pub open spec fn order_block(
    state: BootState,
    paths: Seq<String>,
    cols: usize,
    i: int,
    slot: u16,
) -> Seq<LineView> {
    match state.found(slot) {
        Some(entry) => entry_block(
            position_head(i),
            slot,
            entry,
            path_in(state, paths, slot),
            cols,
        ),
        None => seq![
            styled(
                position_head(i) + (slot_text(slot) + "  <- in the order, but no such entry"@),
                Style::Bad,
            ),
        ],
    }
}

/// The first `n` entries of the boot order.
pub open spec fn order_blocks(
    state: BootState,
    paths: Seq<String>,
    cols: usize,
    order: Seq<u16>,
    n: nat,
) -> Seq<LineView>
    decreases n,
{
    if n == 0 {
        Seq::empty()
    } else {
        order_blocks(state, paths, cols, order, (n - 1) as nat) + order_block(
            state,
            paths,
            cols,
            n - 1,
            order[n - 1],
        )
    }
}

fn position(i: usize) -> (r: String)
    ensures
        r@ == position_head(i as int),
{
    let mut s = "  ".to_owned();
    s.push_str(pad_left_text(succ_text(i as u64).as_str(), 2, ' ').as_str());
    s.push_str(". ");
    s
}

fn add_order(out: &mut Vec<Line>, state: &BootState, paths: &[String], cols: usize, order: &[u16])
    requires
        paths@.len() == state.entries@.len(),
    ensures
        shown(final(out)@) == shown(old(out)@) + order_blocks(
            *state,
            paths@,
            cols,
            order@,
            order@.len(),
        ),
{
    let ghost before = shown(out@);
    let mut i: usize = 0;
    assert(shown(out@) =~= before + order_blocks(*state, paths@, cols, order@, 0));
    while i < order.len()
        invariant
            i <= order@.len(),
            paths@.len() == state.entries@.len(),
            shown(out@) == before + order_blocks(*state, paths@, cols, order@, i as nat),
        decreases order@.len() - i,
    {
        let ghost now = order_blocks(*state, paths@, cols, order@, i as nat);
        let slot: u16 = order[i];
        let head = position(i);
        match place_of(state, slot) {
            Some(k) => add_lines(
                out,
                render_behind(
                    head.as_str(),
                    slot,
                    &state.entries[k].1,
                    paths[k].as_str(),
                    cols,
                ),
            ),
            None => {
                let mut t = slot_name(slot);
                t.push_str("  <- in the order, but no such entry");
                let mut s = head;
                s.push_str(t.as_str());
                add_line(out, bad(s));
            },
        }
        assert(shown(out@) =~= before + (now + order_block(
            *state,
            paths@,
            cols,
            i as int,
            order@[i as int],
        )));
        i += 1;
    }
}

/// The first `n` of the entries the order does not name.
pub open spec fn orphan_blocks(
    state: BootState,
    paths: Seq<String>,
    cols: usize,
    orphans: Seq<u16>,
    n: nat,
) -> Seq<LineView>
    decreases n,
{
    if n == 0 {
        Seq::empty()
    } else {
        let rest = orphan_blocks(state, paths, cols, orphans, (n - 1) as nat);
        let slot = orphans[n - 1];
        match state.found(slot) {
            Some(entry) => rest + entry_block(
                "  "@,
                slot,
                entry,
                path_in(state, paths, slot),
                cols,
            ),
            None => rest,
        }
    }
}

fn add_orphans(
    out: &mut Vec<Line>,
    state: &BootState,
    paths: &[String],
    cols: usize,
    orphans: &[u16],
)
    requires
        paths@.len() == state.entries@.len(),
    ensures
        shown(final(out)@) == shown(old(out)@) + orphan_blocks(
            *state,
            paths@,
            cols,
            orphans@,
            orphans@.len(),
        ),
{
    let ghost before = shown(out@);
    let mut i: usize = 0;
    assert(shown(out@) =~= before + orphan_blocks(*state, paths@, cols, orphans@, 0));
    while i < orphans.len()
        invariant
            i <= orphans@.len(),
            paths@.len() == state.entries@.len(),
            shown(out@) == before + orphan_blocks(*state, paths@, cols, orphans@, i as nat),
        decreases orphans@.len() - i,
    {
        let slot: u16 = orphans[i];
        if let Some(k) = place_of(state, slot) {
            add_lines(
                out,
                render_boot_entry(slot, &state.entries[k].1, paths[k].as_str(), cols),
            );
        }
        i += 1;
        assert(shown(out@) =~= before + orphan_blocks(
            *state,
            paths@,
            cols,
            orphans@,
            i as nat,
        ));
    }
}

/// Why the list may be incomplete, where it may be.
pub open spec fn cut_lines(state: BootState) -> Seq<LineView> {
    match state.truncated {
        Some(e) => seq![
            styled("  "@ + e@, Style::Bad),
            styled("  The list below may be incomplete."@, Style::Warn),
            blank_line(),
        ],
        None => Seq::empty(),
    }
}

/// What this boot used, what the next one will, and the timeout.
pub open spec fn current_lines(state: BootState) -> Seq<LineView> {
    let from = seq![
        styled(
            "  Booted from: "@ + (match state.current {
                Some(s) => slot_title(state, s),
                None => "the firmware did not say"@,
            }),
            Style::Key,
        ),
    ];
    let next = match state.next {
        Some(s) => from.push(
            styled("  Next boot:   "@ + slot_title(state, s) + " (one shot)"@, Style::Warn),
        ),
        None => from,
    };
    (match state.timeout {
        Some(t) => next.push(styled("  Menu timeout: "@ + dec(t as nat) + " s"@, Style::Dim)),
        None => next,
    }).push(blank_line())
}

/// The boot order, entry by entry, or what is wrong with it.
pub open spec fn order_lines(state: BootState, paths: Seq<String>, cols: usize) -> Seq<LineView> {
    match state.order {
        Err(e) => seq![styled("  BootOrder cannot be read - "@ + e@, Style::Bad)],
        Ok(order) => if order@.len() == 0 {
            seq![
                styled("  BootOrder is empty."@, Style::Bad),
                styled("  The firmware has no list to try, and will fall back"@, Style::Normal),
                styled("  to \\EFI\\BOOT\\BOOTX64.EFI if it is willing to."@, Style::Normal),
            ]
        } else {
            seq![styled("  Boot order ("@ + dec(order@.len()) + " entries):"@, Style::Title)]
                + order_blocks(state, paths, cols, order@, order@.len())
        },
    }
}

/// The entries the order does not name: installed, bootable, and invisible
/// to the firmware's own menu.
pub open spec fn orphan_lines(state: BootState, paths: Seq<String>, cols: usize) -> Seq<LineView> {
    let orphans = outside(state.entries@, state.ordered(), state.entries@.len());
    if orphans.len() == 0 {
        Seq::empty()
    } else {
        seq![
            blank_line(),
            styled("  Present, but not in the boot order:"@, Style::Title),
            styled("  The firmware will not offer these."@, Style::Dim),
        ] + orphan_blocks(state, paths, cols, orphans, orphans.len())
    }
}

/// What the page ends with.
pub open spec fn closing_lines(state: BootState) -> Seq<LineView> {
    (if state.entries@.len() == 0 {
        seq![
            blank_line(),
            styled("  There are no boot entries in NVRAM at all."@, Style::Bad),
        ]
    } else {
        Seq::empty()
    }) + seq![
        blank_line(),
        styled("  Nothing was written. This screen never modifies NVRAM."@, Style::Good),
    ]
}

/// Everything NVRAM says about booting.
pub open spec fn view_lines(state: BootState, paths: Seq<String>, cols: usize) -> Seq<LineView> {
    cut_lines(state) + current_lines(state) + order_lines(state, paths, cols) + orphan_lines(
        state,
        paths,
        cols,
    ) + closing_lines(state)
}

fn render_cut(state: &BootState) -> (r: Vec<Line>)
    ensures
        shown(r@) == cut_lines(*state),
{
    let mut out = no_lines();
    if let Some(e) = &state.truncated {
        let mut s = "  ".to_owned();
        s.push_str(e.as_str());
        add_line(&mut out, bad(s));
        add_line(&mut out, warn("  The list below may be incomplete."));
        add_line(&mut out, Line::blank());
    }
    assert(shown(out@) =~= cut_lines(*state));
    out
}

fn render_current(state: &BootState) -> (r: Vec<Line>)
    ensures
        shown(r@) == current_lines(*state),
{
    let mut out = no_lines();
    let from = match state.current {
        Some(s) => slot_with_name(state, s),
        None => "the firmware did not say".to_owned(),
    };
    let mut s = "  Booted from: ".to_owned();
    s.push_str(from.as_str());
    add_line(&mut out, key(s));
    if let Some(next) = state.next {
        let mut s = "  Next boot:   ".to_owned();
        s.push_str(slot_with_name(state, next).as_str());
        s.push_str(" (one shot)");
        add_line(&mut out, warn(s));
    }
    if let Some(t) = state.timeout {
        let mut s = "  Menu timeout: ".to_owned();
        s.push_str(dec_text(t as u64).as_str());
        s.push_str(" s");
        add_line(&mut out, dim(s));
    }
    add_line(&mut out, Line::blank());
    assert(shown(out@) =~= current_lines(*state));
    out
}

fn render_order(state: &BootState, paths: &[String], cols: usize) -> (r: Vec<Line>)
    requires
        paths@.len() == state.entries@.len(),
    ensures
        shown(r@) == order_lines(*state, paths@, cols),
{
    let mut out = no_lines();
    match &state.order {
        Err(e) => {
            let mut s = "  BootOrder cannot be read - ".to_owned();
            s.push_str(e.as_str());
            add_line(&mut out, bad(s));
        },
        Ok(order) => {
            if order.len() == 0 {
                add_line(&mut out, bad("  BootOrder is empty."));
                add_line(&mut out, line("  The firmware has no list to try, and will fall back"));
                add_line(&mut out, line("  to \\EFI\\BOOT\\BOOTX64.EFI if it is willing to."));
            } else {
                let mut s = "  Boot order (".to_owned();
                s.push_str(dec_text(order.len() as u64).as_str());
                s.push_str(" entries):");
                add_line(&mut out, title(s));
                assert(shown(out@) =~= seq![
                    styled("  Boot order ("@ + dec(order@.len()) + " entries):"@, Style::Title),
                ]);
                add_order(&mut out, state, paths, cols, order.as_slice());
            }
        },
    }
    assert(shown(out@) =~= order_lines(*state, paths@, cols));
    out
}

fn render_orphans(state: &BootState, paths: &[String], cols: usize) -> (r: Vec<Line>)
    requires
        paths@.len() == state.entries@.len(),
    ensures
        shown(r@) == orphan_lines(*state, paths@, cols),
{
    let mut out = no_lines();
    let orphans = state.orphans();
    if orphans.len() > 0 {
        add_line(&mut out, Line::blank());
        add_line(&mut out, title("  Present, but not in the boot order:"));
        add_line(&mut out, dim("  The firmware will not offer these."));
        assert(shown(out@) =~= seq![
            blank_line(),
            styled("  Present, but not in the boot order:"@, Style::Title),
            styled("  The firmware will not offer these."@, Style::Dim),
        ]);
        add_orphans(&mut out, state, paths, cols, orphans.as_slice());
    }
    out
}

/// Everything NVRAM says about booting. Reads nothing else and writes
/// nothing at all.
pub fn run_boot_view(state: &BootState, paths: &[String], cols: usize) -> (r: Vec<Line>)
    requires
        paths@.len() == state.entries@.len(),
    ensures
        shown(r@) == view_lines(*state, paths@, cols),
{
    let mut out = render_cut(state);
    add_lines(&mut out, render_current(state));
    add_lines(&mut out, render_order(state, paths, cols));
    add_lines(&mut out, render_orphans(state, paths, cols));
    let mut end = no_lines();
    if state.entries.len() == 0 {
        add_line(&mut end, Line::blank());
        add_line(&mut end, bad("  There are no boot entries in NVRAM at all."));
    }
    add_line(&mut end, Line::blank());
    add_line(&mut end, good("  Nothing was written. This screen never modifies NVRAM."));
    assert(shown(end@) =~= closing_lines(*state));
    add_lines(&mut out, end);
    out
}

// --------------------------------------------------------------------- laws

proof fn a_part_is_on_the_page(state: BootState, paths: Seq<String>, cols: usize, x: LineView)
    ensures
        cut_lines(state).contains(x) || current_lines(state).contains(x) || order_lines(
            state,
            paths,
            cols,
        ).contains(x) || orphan_lines(state, paths, cols).contains(x) || closing_lines(
            state,
        ).contains(x) <==> view_lines(state, paths, cols).contains(x),
{
    let a = cut_lines(state);
    let b = current_lines(state);
    let c = order_lines(state, paths, cols);
    let d = orphan_lines(state, paths, cols);
    in_either(a, b, x);
    in_either(a + b, c, x);
    in_either(a + b + c, d, x);
    in_either(a + b + c + d, closing_lines(state), x);
}

proof fn ordered_are_shown(
    state: BootState,
    paths: Seq<String>,
    cols: usize,
    order: Seq<u16>,
    n: nat,
    i: int,
    x: LineView,
)
    requires
        0 <= i < n <= order.len(),
        order_block(state, paths, cols, i, order[i]).contains(x),
    ensures
        order_blocks(state, paths, cols, order, n).contains(x),
    decreases n,
{
    in_either(
        order_blocks(state, paths, cols, order, (n - 1) as nat),
        order_block(state, paths, cols, n - 1, order[n - 1]),
        x,
    );
    if i < n - 1 {
        ordered_are_shown(state, paths, cols, order, (n - 1) as nat, i, x);
    }
}

proof fn orphans_are_shown(
    state: BootState,
    paths: Seq<String>,
    cols: usize,
    orphans: Seq<u16>,
    n: nat,
    i: int,
    entry: Result<LoadOption, String>,
    x: LineView,
)
    requires
        0 <= i < n <= orphans.len(),
        state.found(orphans[i]) == Some(entry),
        entry_block(
            "  "@,
            orphans[i],
            entry,
            path_in(state, paths, orphans[i]),
            cols,
        ).contains(x),
    ensures
        orphan_blocks(state, paths, cols, orphans, n).contains(x),
    decreases n,
{
    let rest = orphan_blocks(state, paths, cols, orphans, (n - 1) as nat);
    let slot = orphans[n - 1];
    if let Some(e) = state.found(slot) {
        in_either(rest, entry_block("  "@, slot, e, path_in(state, paths, slot), cols), x);
    }
    if i < n - 1 {
        orphans_are_shown(state, paths, cols, orphans, (n - 1) as nat, i, entry, x);
    }
}

/// What the first line says of an entry.
proof fn an_entry_is_named(
    head: Seq<char>,
    slot: u16,
    entry: Result<LoadOption, String>,
    path: Seq<char>,
    cols: usize,
)
    ensures
        entry matches Ok(o) ==> entry_block(head, slot, entry, path, cols).contains(
            styled(
                head + summary_text(slot, o.attributes & 1 != 0, o.description@),
                if o.attributes & 1 != 0 {
                    Style::Normal
                } else {
                    Style::Dim
                },
            ),
        ),
        entry matches Err(e) ==> entry_block(head, slot, entry, path, cols).contains(
            styled(head + (slot_text(slot) + "  cannot be read - "@ + e@), Style::Bad),
        ),
{
    let b = entry_block(head, slot, entry, path, cols);
    assert(b[0] == b[0]);
    match entry {
        Ok(o) => {
            assert(b[0] == styled(
                head + summary_text(slot, o.active(), o.description@),
                if o.active() {
                    Style::Normal
                } else {
                    Style::Dim
                },
            ));
        },
        Err(e) => {},
    }
}

/// Every slot of the boot order is on the page, numbered from one in that
/// order: its entry, or why it cannot be read, or that there is none.
pub proof fn the_whole_order_is_shown(
    state: BootState,
    paths: Seq<String>,
    cols: usize,
    order: Vec<u16>,
    i: int,
)
    requires
        state.order == Ok::<Vec<u16>, String>(order),
        0 <= i < order@.len(),
    ensures
        ({
            let head = "  "@ + pad_left(dec((i + 1) as nat), 2, ' ') + ". "@;
            let slot = order@[i];
            let page = view_lines(state, paths, cols);
            &&& state.found(slot) matches Some(Ok(o)) ==> page.contains(
                styled(
                    head + summary_text(slot, o.attributes & 1 != 0, o.description@),
                    if o.attributes & 1 != 0 {
                        Style::Normal
                    } else {
                        Style::Dim
                    },
                ),
            )
            &&& state.found(slot) matches Some(Err(e)) ==> page.contains(
                styled(head + (slot_text(slot) + "  cannot be read - "@ + e@), Style::Bad),
            )
            &&& state.found(slot) is None ==> page.contains(
                styled(
                    head + (slot_text(slot) + "  <- in the order, but no such entry"@),
                    Style::Bad,
                ),
            )
        }),
{
    let slot = order@[i];
    let head = position_head(i);
    let block = order_block(state, paths, cols, i, slot);
    let title = seq![styled("  Boot order ("@ + dec(order@.len()) + " entries):"@, Style::Title)];
    let blocks = order_blocks(state, paths, cols, order@, order@.len());
    let x = match state.found(slot) {
        Some(Ok(o)) => styled(
            head + summary_text(slot, o.attributes & 1 != 0, o.description@),
            if o.attributes & 1 != 0 {
                Style::Normal
            } else {
                Style::Dim
            },
        ),
        Some(Err(e)) => styled(head + (slot_text(slot) + "  cannot be read - "@ + e@), Style::Bad),
        None => styled(
            head + (slot_text(slot) + "  <- in the order, but no such entry"@),
            Style::Bad,
        ),
    };
    match state.found(slot) {
        Some(entry) => {
            an_entry_is_named(head, slot, entry, path_in(state, paths, slot), cols);
        },
        None => {
            assert(block[0] == x);
        },
    }
    assert(block.contains(x));
    ordered_are_shown(state, paths, cols, order@, order@.len(), i, x);
    in_either(title, blocks, x);
    a_part_is_on_the_page(state, paths, cols, x);
}

/// Every entry that has fallen out of the order is on the page too, under its
/// own heading.
pub proof fn entries_outside_the_order_are_shown(
    state: BootState,
    paths: Seq<String>,
    cols: usize,
    i: int,
)
    requires
        0 <= i < state.entries@.len(),
        !state.ordered().contains(state.entries@[i].0),
        forall|j: int| 0 <= j < i ==> (#[trigger] state.entries@[j]).0 != state.entries@[i].0,
    ensures
        view_lines(state, paths, cols).contains(
            styled("  Present, but not in the boot order:"@, Style::Title),
        ),
        state.entries@[i].1 matches Ok(o) ==> view_lines(state, paths, cols).contains(
            styled(
                "  "@ + summary_text(
                    state.entries@[i].0,
                    o.attributes & 1 != 0,
                    o.description@,
                ),
                if o.attributes & 1 != 0 {
                    Style::Normal
                } else {
                    Style::Dim
                },
            ),
        ),
        state.entries@[i].1 matches Err(e) ==> view_lines(state, paths, cols).contains(
            styled(
                "  "@ + (slot_text(state.entries@[i].0) + "  cannot be read - "@ + e@),
                Style::Bad,
            ),
        ),
{
    let slot = state.entries@[i].0;
    let entry = state.entries@[i].1;
    let orphans = outside(state.entries@, state.ordered(), state.entries@.len());
    crate::nvram::orphans_are_what_the_order_misses(
        state.entries@,
        state.ordered(),
        state.entries@.len(),
        slot,
    );
    assert(orphans.contains(slot));
    let k = choose|k: int| 0 <= k < orphans.len() && orphans[k] == slot;
    first_of_its_slot(state.entries@, slot, 0, i);
    an_entry_is_named("  "@, slot, entry, path_in(state, paths, slot), cols);
    let x = match entry {
        Ok(o) => styled(
            "  "@ + summary_text(slot, o.attributes & 1 != 0, o.description@),
            if o.attributes & 1 != 0 {
                Style::Normal
            } else {
                Style::Dim
            },
        ),
        Err(e) => styled("  "@ + (slot_text(slot) + "  cannot be read - "@ + e@), Style::Bad),
    };
    orphans_are_shown(state, paths, cols, orphans, orphans.len(), k, entry, x);
    let head = seq![
        blank_line(),
        styled("  Present, but not in the boot order:"@, Style::Title),
        styled("  The firmware will not offer these."@, Style::Dim),
    ];
    in_either(head, orphan_blocks(state, paths, cols, orphans, orphans.len()), x);
    in_either(head, orphan_blocks(state, paths, cols, orphans, orphans.len()), head[1]);
    assert(head.contains(head[1]));
    a_part_is_on_the_page(state, paths, cols, x);
    a_part_is_on_the_page(state, paths, cols, head[1]);
}

proof fn first_of_its_slot(
    entries: Seq<(u16, Result<LoadOption, String>)>,
    slot: u16,
    from: int,
    i: int,
)
    requires
        0 <= from <= i < entries.len(),
        entries[i].0 == slot,
        forall|j: int| from <= j < i ==> (#[trigger] entries[j]).0 != slot,
    ensures
        crate::nvram::entry_from(entries, slot, from) == Some(entries[i].1),
    decreases i - from,
{
    if from < i {
        first_of_its_slot(entries, slot, from + 1, i);
    }
}

} // verus!
