//! Turning the picture, and changing how much of it fits.
//!
//! Reachable with View from any screen that waits for a press, because the
//! moment this is wanted is the moment the screen cannot be read, and that
//! can happen anywhere.
//!
//! LEFT and RIGHT work regardless of which way round the text came out,
//! which is the only reason this screen can rescue a wrong guess at all. UP
//! and DOWN step the text size, because how big is comfortable is a
//! judgement about a particular person looking at a particular panel.

use crate::console::Layout;
use crate::gfx::Rotation;
use crate::style::Style;
use crate::text::{content_of, dec, dec_text, strings_of};
use crate::ui::{
    add_hint, button, clear, clear_draws, drawn, fit, fitted, hint_view, hints_of, ink, ink_of,
    key_label, less, no_hints, nothing, put, put_all, text_width, writable_width, Draw, DrawView,
    Hint, HintView, Ink, Input, Screen,
};
use vstd::prelude::*;

verus! {

/// A mode the display offers.
#[derive(Clone, Copy, PartialEq, Eq, Structural, Debug)]
pub struct Mode {
    pub width: usize,
    pub height: usize,
    /// It is the one in use.
    pub current: bool,
    /// It is one that can be drawn in.
    pub drawable: bool,
}

/// A mode worth trying, and the grid it comes to.
#[derive(Clone, Copy, PartialEq, Eq, Structural, Debug)]
pub struct Upgrade {
    pub width: usize,
    pub height: usize,
    pub layout: Layout,
}

// --------------------------------------------------------------- the modes

/// How a mode is listed: its extent, and a mark if it is the one in use or
/// cannot be drawn in.
pub open spec fn mode_entry(m: Mode) -> Seq<char> {
    dec(m.width as nat) + "x"@ + dec(m.height as nat) + (if m.current {
        "*"@
    } else if m.drawable {
        ""@
    } else {
        "!"@
    })
}

/// The modes as they are listed.
pub open spec fn mode_entries(modes: Seq<Mode>) -> Seq<Seq<char>> {
    Seq::new(modes.len(), |i: int| mode_entry(modes[i]))
}

/// At most `rows` lines of at most `width` characters, filled greedily with
/// the first `n` entries, and how many of them fitted.
///
/// Two spaces between entries, so a row of them reads as a list rather than
/// as one long number.
pub open spec fn packed(entries: Seq<Seq<char>>, n: nat, width: int, rows: int) -> (
    Seq<Seq<char>>,
    nat,
)
    decreases n,
{
    if n == 0 {
        (Seq::empty(), 0)
    } else {
        let (lines, fitted) = packed(entries, (n - 1) as nat, width, rows);
        let entry = entries[n - 1];
        if fitted < n - 1 {
            (lines, fitted)
        } else if lines.len() > 0 && lines.last().len() + 2 + entry.len() <= width {
            (lines.drop_last().push(lines.last() + "  "@ + entry), fitted + 1)
        } else if lines.len() < rows {
            (lines.push(entry), fitted + 1)
        } else {
            (lines, fitted)
        }
    }
}

/// Once an entry does not fit, nothing after it is shown.
proof fn packing_stops(entries: Seq<Seq<char>>, k: nat, n: nat, width: int, rows: int)
    requires
        k <= n,
        packed(entries, k, width, rows).1 < k,
    ensures
        packed(entries, n, width, rows) == packed(entries, k, width, rows),
    decreases n,
{
    if k < n {
        packing_stops(entries, k, (n - 1) as nat, width, rows);
    }
}

/// Greedily fill at most `rows` lines of at most `width` characters,
/// reporting how many entries fitted.
pub fn pack(entries: &[String], width: usize, rows: usize) -> (r: (Vec<String>, usize))
    ensures
        ({
            let (lines, fitted) = packed(
                strings_of(entries@),
                entries@.len(),
                width as int,
                rows as int,
            );
            strings_of(r.0@) == lines && r.1 == fitted
        }),
        r.1 <= entries@.len(),
{
    let ghost all = strings_of(entries@);
    let mut lines: Vec<String> = Vec::new();
    let mut i: usize = 0;
    assert(strings_of(lines@) =~= Seq::<Seq<char>>::empty());
    while i < entries.len()
        invariant
            i <= entries@.len(),
            all == strings_of(entries@),
            packed(all, i as nat, width as int, rows as int) == (strings_of(lines@), i as nat),
        decreases entries@.len() - i,
    {
        let entry = entries[i].as_str();
        let entry_len: usize = entry.unicode_len();
        let ghost before = strings_of(lines@);
        assert(before.len() == lines@.len());
        let room: bool = if lines.len() > 0 {
            let last_len: usize = lines[lines.len() - 1].as_str().unicode_len();
            assert(before.last().len() == last_len);
            last_len as u128 + 2 + entry_len as u128 <= width as u128
        } else {
            false
        };
        if room {
            let mut last = match lines.pop() {
                Some(last) => last,
                None => String::new(),
            };
            last.push_str("  ");
            last.push_str(entry);
            lines.push(last);
            assert(strings_of(lines@) =~= before.drop_last().push(before.last() + "  "@ + entry@));
        } else if lines.len() < rows {
            lines.push(entry.to_owned());
            assert(strings_of(lines@) =~= before.push(entry@));
        } else {
            proof {
                packing_stops(all, (i + 1) as nat, all.len(), width as int, rows as int);
            }
            return (lines, i);
        }
        i += 1;
    }
    (lines, i)
}

/// The mode list in as few rows as the width allows.
///
/// A list quietly cut short reads as the whole truth, so where not all of it
/// fits, one of the rows goes to saying how much of it is missing.
pub open spec fn mode_rows(modes: Seq<Mode>, width: int, rows: int) -> Seq<Seq<char>> {
    let entries = mode_entries(modes);
    let (lines, fitted) = packed(entries, entries.len(), width, rows);
    if fitted == entries.len() {
        lines
    } else {
        let (fewer, kept) = packed(entries, entries.len(), width, less(rows, 1));
        fewer.push("+"@ + dec((entries.len() - kept) as nat) + " more"@)
    }
}

/// The mode list, packed into as few rows as the width allows.
pub fn mode_lines(modes: &[Mode], width: usize, rows: usize) -> (r: Vec<String>)
    ensures
        strings_of(r@) == mode_rows(modes@, width as int, rows as int),
{
    let mut entries: Vec<String> = Vec::new();
    let mut i: usize = 0;
    assert(strings_of(entries@) =~= mode_entries(modes@.take(0)));
    while i < modes.len()
        invariant
            i <= modes@.len(),
            strings_of(entries@) == mode_entries(modes@.take(i as int)),
        decreases modes@.len() - i,
    {
        let m = modes[i];
        let mut s = dec_text(m.width as u64);
        s.push_str("x");
        s.push_str(dec_text(m.height as u64).as_str());
        let mark = if m.current {
            "*"
        } else if m.drawable {
            ""
        } else {
            "!"
        };
        s.push_str(mark);
        let ghost before = strings_of(entries@);
        let ghost text = s@;
        assert(text == mode_entry(m));
        entries.push(s);
        assert(strings_of(entries@) =~= before.push(text));
        i += 1;
        assert(mode_entries(modes@.take(i as int)) =~= mode_entries(modes@.take(i - 1)).push(
            mode_entry(m),
        ));
        assert(strings_of(entries@) =~= mode_entries(modes@.take(i as int)));
    }
    assert(modes@.take(i as int) =~= modes@);
    assert(strings_of(entries@).len() == entries@.len());
    let (lines, fitted) = pack(entries.as_slice(), width, rows);
    if fitted == entries.len() {
        return lines;
    }
    let (fewer, kept) = pack(entries.as_slice(), width, rows.saturating_sub(1));
    let mut lines = fewer;
    let mut s = "+".to_owned();
    s.push_str(dec_text((entries.len() - kept) as u64).as_str());
    s.push_str(" more");
    let ghost before = strings_of(lines@);
    let ghost added = s@;
    lines.push(s);
    assert(strings_of(lines@) =~= before.push(added));
    lines
}

/// A row of the list is never wider than there is room for, unless a single
/// entry is.
pub proof fn packed_rows_fit(entries: Seq<Seq<char>>, n: nat, width: int, rows: int, i: int)
    requires
        n <= entries.len(),
        forall|j: int| 0 <= j < entries.len() ==> (#[trigger] entries[j]).len() <= width,
        0 <= i < packed(entries, n, width, rows).0.len(),
    ensures
        packed(entries, n, width, rows).0[i].len() <= width,
        0 <= rows ==> packed(entries, n, width, rows).0.len() <= rows,
    decreases n,
{
    if n > 0 {
        let (lines, fitted) = packed(entries, (n - 1) as nat, width, rows);
        if i < lines.len() {
            packed_rows_fit(entries, (n - 1) as nat, width, rows, i);
        } else if lines.len() > 0 {
            packed_rows_fit(entries, (n - 1) as nat, width, rows, 0);
        }
        reveal_strlit("  ");
    }
}

// -------------------------------------------------------------- the screen

/// What the display screen is drawn from.
pub struct Showing {
    pub rotation: Rotation,
    /// The extent of the mode in use, where it is known.
    pub resolution: Option<(usize, usize)>,
    pub layout: Option<Layout>,
    pub modes: Vec<Mode>,
    pub upgrade: Option<Upgrade>,
    /// What the last press came to.
    pub note: Option<String>,
}

/// Rows as draws.
pub open spec fn rows_draws(rows: Seq<Seq<char>>, n: nat) -> Seq<DrawView>
    decreases n,
{
    if n == 0 {
        Seq::empty()
    } else {
        rows_draws(rows, (n - 1) as nat).push(DrawView::Row("    "@ + rows[n - 1]))
    }
}

/// Some mode cannot be drawn in.
pub open spec fn any_undrawable(modes: Seq<Mode>) -> bool {
    exists|i: int| 0 <= i < modes.len() && !(#[trigger] modes[i]).drawable
}

/// The offer of a bigger mode, in full: the mode, the grid it comes to, and
/// how it undoes itself.
pub open spec fn offer_draws(deck: bool, upgrade: Option<Upgrade>) -> Seq<DrawView> {
    match upgrade {
        None => Seq::empty(),
        Some(u) => seq![
            DrawView::Paint(ink(Style::Dim)),
            DrawView::Row(
                "  ["@ + button(deck, "View"@) + "] tries "@ + dec(u.width as nat) + " x "@ + dec(
                    u.height as nat,
                ) + ": "@ + dec(u.layout.cols as nat) + " x "@ + dec(u.layout.rows as nat)
                    + " characters in cells of "@ + dec(u.layout.cell_w as nat) + "x"@ + dec(
                    u.layout.cell_h as nat,
                ) + "."@,
            ),
            DrawView::Row(
                "  If the picture does not survive it, waiting brings this one back."@,
            ),
            DrawView::Paint(Ink::Body),
        ],
    }
}

/// Rows the mode list may take.
pub open spec fn mode_budget(s: Screen, layout: Option<Layout>) -> int {
    let used = s.head() + 10 + (if layout is Some {
        1int
    } else {
        0
    });
    let left = less(less(s.rows as int, 3), used + 3);
    if left > 1 {
        left
    } else {
        1
    }
}

/// The modes the firmware says it could set, and what the largest would
/// give.
pub open spec fn modes_draws(s: Screen, d: Showing) -> Seq<DrawView> {
    if d.modes@.len() == 0 {
        Seq::empty()
    } else {
        let rows = mode_rows(
            d.modes@,
            less(writable_width(s.cols as int), 4),
            mode_budget(s, d.layout),
        );
        seq![
            DrawView::Row(""@),
            DrawView::Paint(ink(Style::Dim)),
            DrawView::Row(
                "  Modes this display offers (* in use"@ + (if any_undrawable(d.modes@) {
                    ", ! not ours to draw in"@
                } else {
                    ""@
                }) + "):"@,
            ),
            DrawView::Paint(Ink::Body),
        ] + rows_draws(rows, rows.len()) + offer_draws(s.deck, d.upgrade)
    }
}

/// What the screen says of itself.
pub open spec fn about_draws(s: Screen, d: Showing) -> Seq<DrawView> {
    seq![
        DrawView::Row("  This screen is drawn by the toolkit itself rather than by the"@),
        DrawView::Row("  firmware, which is what makes it possible to turn the picture"@),
        DrawView::Row("  to match the panel. The Steam Deck's is mounted sideways, so"@),
        DrawView::Row("  the firmware's own text comes out a quarter turn off there."@),
        DrawView::Row(""@),
        DrawView::Paint(ink(Style::Key)),
        DrawView::Row(
            "  Now showing: "@ + fitted(d.rotation.label(), s.cols as int) + ", "@ + dec(
                s.cols as nat,
            ) + " x "@ + dec(s.rows as nat) + " characters"@,
        ),
        DrawView::Paint(Ink::Body),
    ] + (match (d.resolution, d.layout) {
        (Some((width, height)), Some(layout)) => seq![
            DrawView::Row(
                "  Drawn on "@ + dec(width as nat) + " x "@ + dec(height as nat)
                    + " pixels, cells of "@ + dec(layout.cell_w as nat) + "x"@ + dec(
                    layout.cell_h as nat,
                ),
            ),
        ],
        _ => Seq::<DrawView>::empty(),
    }) + seq![
        DrawView::Row(""@),
        DrawView::Row("  If you can read this the right way up, there is nothing to do."@),
    ]
}

/// What the last press came to.
pub open spec fn note_draws(s: Screen, note: Option<Seq<char>>) -> Seq<DrawView> {
    match note {
        None => Seq::empty(),
        Some(text) => seq![
            DrawView::Paint(ink(Style::Dim)),
            DrawView::Row("  "@ + fitted(text, s.cols as int)),
            DrawView::Paint(Ink::Body),
        ],
    }
}

/// What the display screen offers. View earns a hint only where it does
/// something.
pub open spec fn display_hints(d: Showing) -> Seq<HintView> {
    (seq![hint_view("LEFT/RIGHT"@, "turn"@), hint_view("UP/DOWN"@, "text size"@)] + (
    if d.upgrade is Some {
        seq![hint_view("View"@, "bigger mode"@)]
    } else {
        Seq::<HintView>::empty()
    })).push(hint_view("A"@, "done"@))
}

/// The display screen as it is drawn.
pub open spec fn display_draws(s: Screen, d: Showing) -> Seq<DrawView> {
    clear_draws() + s.header_draws("Display"@) + about_draws(s, d) + modes_draws(s, d) + note_draws(
        s,
        content_of(d.note),
    ) + s.footer_draws(display_hints(d))
}

fn draw_about(s: &Screen, d: &Showing) -> (r: Vec<Draw>)
    ensures
        drawn(r@) == about_draws(*s, *d),
{
    let mut out = nothing();
    put(
        &mut out,
        Draw::Row("  This screen is drawn by the toolkit itself rather than by the".to_owned()),
    );
    put(
        &mut out,
        Draw::Row("  firmware, which is what makes it possible to turn the picture".to_owned()),
    );
    put(
        &mut out,
        Draw::Row("  to match the panel. The Steam Deck's is mounted sideways, so".to_owned()),
    );
    put(
        &mut out,
        Draw::Row("  the firmware's own text comes out a quarter turn off there.".to_owned()),
    );
    put(&mut out, Draw::Row("".to_owned()));
    put(&mut out, Draw::Paint(ink_of(Style::Key)));
    let mut t = "  Now showing: ".to_owned();
    t.push_str(fit(d.rotation.name(), s.cols).as_str());
    t.push_str(", ");
    t.push_str(dec_text(s.cols as u64).as_str());
    t.push_str(" x ");
    t.push_str(dec_text(s.rows as u64).as_str());
    t.push_str(" characters");
    put(&mut out, Draw::Row(t));
    put(&mut out, Draw::Paint(Ink::Body));
    let ghost head = drawn(out@);
    if let (Some((width, height)), Some(layout)) = (d.resolution, d.layout) {
        let mut t = "  Drawn on ".to_owned();
        t.push_str(dec_text(width as u64).as_str());
        t.push_str(" x ");
        t.push_str(dec_text(height as u64).as_str());
        t.push_str(" pixels, cells of ");
        t.push_str(dec_text(layout.cell_w as u64).as_str());
        t.push_str("x");
        t.push_str(dec_text(layout.cell_h as u64).as_str());
        put(&mut out, Draw::Row(t));
    }
    let ghost middle = drawn(out@);
    put(&mut out, Draw::Row("".to_owned()));
    put(
        &mut out,
        Draw::Row("  If you can read this the right way up, there is nothing to do.".to_owned()),
    );
    assert(drawn(out@) =~= middle + seq![
        DrawView::Row(""@),
        DrawView::Row("  If you can read this the right way up, there is nothing to do."@),
    ]);
    assert(drawn(out@) =~= about_draws(*s, *d));
    out
}

fn draw_offer(deck: bool, upgrade: Option<Upgrade>) -> (r: Vec<Draw>)
    ensures
        drawn(r@) == offer_draws(deck, upgrade),
{
    let mut out = nothing();
    if let Some(u) = upgrade {
        put(&mut out, Draw::Paint(ink_of(Style::Dim)));
        let mut t = "  [".to_owned();
        t.push_str(key_label(deck, "View"));
        t.push_str("] tries ");
        t.push_str(dec_text(u.width as u64).as_str());
        t.push_str(" x ");
        t.push_str(dec_text(u.height as u64).as_str());
        t.push_str(": ");
        t.push_str(dec_text(u.layout.cols as u64).as_str());
        t.push_str(" x ");
        t.push_str(dec_text(u.layout.rows as u64).as_str());
        t.push_str(" characters in cells of ");
        t.push_str(dec_text(u.layout.cell_w as u64).as_str());
        t.push_str("x");
        t.push_str(dec_text(u.layout.cell_h as u64).as_str());
        t.push_str(".");
        put(&mut out, Draw::Row(t));
        put(
            &mut out,
            Draw::Row(
                "  If the picture does not survive it, waiting brings this one back.".to_owned(),
            ),
        );
        put(&mut out, Draw::Paint(Ink::Body));
    }
    out
}

fn has_undrawable(modes: &[Mode]) -> (r: bool)
    ensures
        r == any_undrawable(modes@),
{
    let mut i: usize = 0;
    while i < modes.len()
        invariant
            i <= modes@.len(),
            forall|j: int| 0 <= j < i ==> (#[trigger] modes@[j]).drawable,
        decreases modes@.len() - i,
    {
        if !modes[i].drawable {
            assert(!modes@[i as int].drawable);
            return true;
        }
        i += 1;
    }
    false
}

fn draw_modes(s: &Screen, d: &Showing) -> (r: Vec<Draw>)
    ensures
        drawn(r@) == modes_draws(*s, *d),
{
    let mut out = nothing();
    if d.modes.len() == 0 {
        return out;
    }
    let used: usize = s.header_rows() + 10 + if d.layout.is_some() {
        1
    } else {
        0
    };
    let left: usize = s.rows.saturating_sub(3).saturating_sub(used + 3);
    let budget: usize = if left > 1 {
        left
    } else {
        1
    };
    put(&mut out, Draw::Row("".to_owned()));
    put(&mut out, Draw::Paint(ink_of(Style::Dim)));
    let mut t = "  Modes this display offers (* in use".to_owned();
    let extra = if has_undrawable(d.modes.as_slice()) {
        ", ! not ours to draw in"
    } else {
        ""
    };
    t.push_str(extra);
    t.push_str("):");
    put(&mut out, Draw::Row(t));
    put(&mut out, Draw::Paint(Ink::Body));
    let ghost head = drawn(out@);
    let rows = mode_lines(d.modes.as_slice(), text_width(s.cols).saturating_sub(4), budget);
    let ghost all = strings_of(rows@);
    let mut i: usize = 0;
    assert(drawn(out@) =~= head + rows_draws(all, 0));
    while i < rows.len()
        invariant
            i <= rows@.len(),
            all == strings_of(rows@),
            drawn(out@) == head + rows_draws(all, i as nat),
        decreases rows@.len() - i,
    {
        let mut t = "    ".to_owned();
        t.push_str(rows[i].as_str());
        put(&mut out, Draw::Row(t));
        i += 1;
        assert(drawn(out@) =~= head + rows_draws(all, i as nat));
    }
    put_all(&mut out, draw_offer(s.deck, d.upgrade));
    out
}

/// The display screen as it is drawn.
pub fn display(s: &Screen, d: &Showing) -> (r: Vec<Draw>)
    ensures
        drawn(r@) == display_draws(*s, *d),
{
    let mut out = clear();
    put_all(&mut out, s.header("Display"));
    put_all(&mut out, draw_about(s, d));
    put_all(&mut out, draw_modes(s, d));
    let ghost before = drawn(out@);
    match &d.note {
        Some(note) => {
            put(&mut out, Draw::Paint(ink_of(Style::Dim)));
            let mut t = "  ".to_owned();
            t.push_str(fit(note.as_str(), s.cols).as_str());
            put(&mut out, Draw::Row(t));
            put(&mut out, Draw::Paint(Ink::Body));
        },
        None => {},
    }
    assert(drawn(out@) =~= before + note_draws(*s, content_of(d.note)));
    let mut hints: Vec<Hint<'static>> = no_hints();
    add_hint(&mut hints, "LEFT/RIGHT", "turn");
    add_hint(&mut hints, "UP/DOWN", "text size");
    let ghost two = hints_of(hints@);
    if d.upgrade.is_some() {
        add_hint(&mut hints, "View", "bigger mode");
    }
    assert(hints_of(hints@) =~= two + (if d.upgrade is Some {
        seq![hint_view("View"@, "bigger mode"@)]
    } else {
        Seq::<HintView>::empty()
    }));
    add_hint(&mut hints, "A", "done");
    assert(hints_of(hints@) == display_hints(*d));
    put_all(&mut out, s.footer(hints.as_slice()));
    out
}

/// What a press on the display screen comes to.
#[derive(Clone, Copy, PartialEq, Eq, Structural, Debug)]
pub enum DisplayStep {
    /// Turn the picture this way.
    Turn(Rotation),
    /// Step the text size.
    Resize { bigger: bool },
    /// Ask the firmware for this mode.
    Try(usize, usize),
    Leave,
}

/// What a press does.
///
/// The button that opens this screen is the button that acts on it, and it
/// keeps its meaning of leaving wherever there is no mode worth trying.
pub open spec fn display_meaning(
    rotation: Rotation,
    upgrade: Option<Upgrade>,
    input: Input,
) -> DisplayStep {
    match input {
        Input::Left => DisplayStep::Turn(rotation.turned().turned().turned()),
        Input::Right => DisplayStep::Turn(rotation.turned()),
        Input::Up => DisplayStep::Resize { bigger: true },
        Input::Down => DisplayStep::Resize { bigger: false },
        Input::View => match upgrade {
            Some(u) => DisplayStep::Try(u.width, u.height),
            None => DisplayStep::Leave,
        },
        _ => DisplayStep::Leave,
    }
}

/// What a press does.
pub fn display_press(rotation: Rotation, upgrade: Option<Upgrade>, input: Input) -> (r: DisplayStep)
    ensures
        r == display_meaning(rotation, upgrade, input),
{
    match input {
        Input::Left => DisplayStep::Turn(rotation.previous()),
        Input::Right => DisplayStep::Turn(rotation.next()),
        Input::Up => DisplayStep::Resize { bigger: true },
        Input::Down => DisplayStep::Resize { bigger: false },
        Input::View => match upgrade {
            Some(u) => DisplayStep::Try(u.width, u.height),
            None => DisplayStep::Leave,
        },
        _ => DisplayStep::Leave,
    }
}

/// What is said when a press finds the end of the cell sizes.
pub open spec fn no_more_sizes(bigger: bool) -> Seq<char> {
    if bigger {
        "No bigger font available at this resolution."@
    } else {
        "No smaller font available at this resolution."@
    }
}

/// Said when a press finds the end of the cell sizes.
///
/// One text per direction. Where a single cell size is all that fits, every
/// press lands on one of these, and a single shared wording would sit there
/// unchanged however the operator pressed, which is indistinguishable from
/// a screen that has stopped reading the buttons at all.
pub fn resize_note(bigger: bool, changed: bool) -> (r: Option<&'static str>)
    ensures
        r is None == changed,
        r matches Some(t) ==> t@ == no_more_sizes(bigger),
{
    if changed {
        None
    } else if bigger {
        Some("No bigger font available at this resolution.")
    } else {
        Some("No smaller font available at this resolution.")
    }
}

// ------------------------------------------------------------ trying a mode

/// Seconds a mode change is given to be confirmed in before it is undone.
///
/// Long enough to take in a screen that has just changed shape and press one
/// button; short enough that somebody looking at a black panel is not left
/// wondering whether the tool has hung.
pub const MODE_SECONDS: u32 = 6;

/// Looks at the buttons in a second.
pub const TICKS_PER_SECOND: u32 = 100;

/// A mode on trial: the seconds left to confirm it in, and the ticks left
/// in this one.
#[derive(Clone, Copy, PartialEq, Eq, Structural, Debug)]
pub struct Trial {
    pub left: u32,
    pub ticks: u32,
}

/// What a tick of the clock comes to.
#[derive(Clone, Copy, PartialEq, Eq, Structural, Debug)]
pub enum TrialStep {
    /// The operator can see it, and keeps it.
    Keep,
    /// It goes back.
    Revert,
    Wait(Trial),
}

impl Trial {
    /// There is time left.
    pub open spec fn wf(self) -> bool {
        1 <= self.left <= MODE_SECONDS && 1 <= self.ticks <= TICKS_PER_SECOND
    }

    /// How many ticks are left in all.
    pub open spec fn remaining(self) -> int {
        (self.left - 1) * TICKS_PER_SECOND + self.ticks
    }

    /// What one look at the buttons comes to.
    ///
    /// The confirmation has to be a keypress, and silence has to count as a
    /// no: a mode the panel will not display looks exactly like one it
    /// will. Only A and B are answers. The arrows are ignored, and so is
    /// View: the press that opened this screen repeats while held, and a
    /// confirmation a held button can give is not a confirmation.
    pub open spec fn after(self, polled: Option<Input>) -> TrialStep {
        if polled == Some(Input::Select) {
            TrialStep::Keep
        } else if polled == Some(Input::Cancel) {
            TrialStep::Revert
        } else if self.ticks > 1 {
            TrialStep::Wait(Trial { left: self.left, ticks: (self.ticks - 1) as u32 })
        } else if self.left > 1 {
            TrialStep::Wait(Trial { left: (self.left - 1) as u32, ticks: TICKS_PER_SECOND })
        } else {
            TrialStep::Revert
        }
    }

    pub fn new() -> (r: Self)
        ensures
            r == (Trial { left: MODE_SECONDS, ticks: TICKS_PER_SECOND }),
            r.wf(),
    {
        Trial { left: MODE_SECONDS, ticks: TICKS_PER_SECOND }
    }

    /// What one look at the buttons comes to.
    pub fn tick(self, polled: Option<Input>) -> (r: TrialStep)
        requires
            self.wf(),
        ensures
            r == self.after(polled),
            r matches TrialStep::Wait(t) ==> t.wf() && t.remaining() == self.remaining() - 1,
    {
        if polled == Some(Input::Select) {
            TrialStep::Keep
        } else if polled == Some(Input::Cancel) {
            TrialStep::Revert
        } else if self.ticks > 1 {
            TrialStep::Wait(Trial { left: self.left, ticks: self.ticks - 1 })
        } else if self.left > 1 {
            TrialStep::Wait(Trial { left: self.left - 1, ticks: TICKS_PER_SECOND })
        } else {
            TrialStep::Revert
        }
    }
}

/// Where a trial stands after `n` ticks in which nothing was pressed.
pub open spec fn silent(t: Trial, n: nat) -> TrialStep
    decreases n,
{
    if n == 0 {
        TrialStep::Wait(t)
    } else {
        match silent(t, (n - 1) as nat) {
            TrialStep::Wait(u) => u.after(None),
            closed => closed,
        }
    }
}

/// Silence is a no: a mode nobody confirms goes back when its time is up,
/// and not before.
pub proof fn silence_reverts(t: Trial, n: nat)
    requires
        t.wf(),
    ensures
        n < t.remaining() ==> (silent(t, n) matches TrialStep::Wait(u) && u.wf() && u.remaining()
            == t.remaining() - n),
        n >= t.remaining() ==> silent(t, n) == TrialStep::Revert,
    decreases n,
{
    if n > 0 {
        silence_reverts(t, (n - 1) as nat);
    }
}

/// The question put on the new mode itself.
pub open spec fn trial_draws(s: Screen, previous: (usize, usize), left: u32) -> Seq<DrawView> {
    clear_draws() + s.header_draws("Display"@) + seq![
        DrawView::Paint(ink(Style::Key)),
        DrawView::Row(
            "  This is a new display mode, "@ + dec(s.cols as nat) + " x "@ + dec(s.rows as nat)
                + " characters."@,
        ),
        DrawView::Paint(Ink::Body),
        DrawView::Row(""@),
        DrawView::Row("  If you can read it, keep it. If you cannot, wait: the mode"@),
        DrawView::Row("  you had comes back on its own and nothing is lost by it."@),
        DrawView::Row(""@),
        DrawView::Paint(ink(Style::Warn)),
        DrawView::Row(
            "  Going back to "@ + dec(previous.0 as nat) + " x "@ + dec(previous.1 as nat)
                + " in "@ + dec(left as nat) + "..."@,
        ),
        DrawView::Paint(Ink::Body),
    ] + s.footer_draws(
        seq![hint_view("A"@, "keep this mode"@), hint_view("B"@, "go back now"@)],
    )
}

fn draw_question(s: &Screen, previous: (usize, usize), left: u32) -> (r: Vec<Draw>)
    ensures
        drawn(r@) == seq![
            DrawView::Paint(ink(Style::Key)),
            DrawView::Row(
                "  This is a new display mode, "@ + dec(s.cols as nat) + " x "@ + dec(
                    s.rows as nat,
                ) + " characters."@,
            ),
            DrawView::Paint(Ink::Body),
            DrawView::Row(""@),
            DrawView::Row("  If you can read it, keep it. If you cannot, wait: the mode"@),
            DrawView::Row("  you had comes back on its own and nothing is lost by it."@),
            DrawView::Row(""@),
            DrawView::Paint(ink(Style::Warn)),
            DrawView::Row(
                "  Going back to "@ + dec(previous.0 as nat) + " x "@ + dec(previous.1 as nat)
                    + " in "@ + dec(left as nat) + "..."@,
            ),
            DrawView::Paint(Ink::Body),
        ],
{
    let mut out = nothing();
    put(&mut out, Draw::Paint(ink_of(Style::Key)));
    let mut t = "  This is a new display mode, ".to_owned();
    t.push_str(dec_text(s.cols as u64).as_str());
    t.push_str(" x ");
    t.push_str(dec_text(s.rows as u64).as_str());
    t.push_str(" characters.");
    put(&mut out, Draw::Row(t));
    put(&mut out, Draw::Paint(Ink::Body));
    put(&mut out, Draw::Row("".to_owned()));
    put(
        &mut out,
        Draw::Row("  If you can read it, keep it. If you cannot, wait: the mode".to_owned()),
    );
    put(
        &mut out,
        Draw::Row("  you had comes back on its own and nothing is lost by it.".to_owned()),
    );
    put(&mut out, Draw::Row("".to_owned()));
    put(&mut out, Draw::Paint(ink_of(Style::Warn)));
    let mut t = "  Going back to ".to_owned();
    t.push_str(dec_text(previous.0 as u64).as_str());
    t.push_str(" x ");
    t.push_str(dec_text(previous.1 as u64).as_str());
    t.push_str(" in ");
    t.push_str(dec_text(left as u64).as_str());
    t.push_str("...");
    put(&mut out, Draw::Row(t));
    put(&mut out, Draw::Paint(Ink::Body));
    out
}

/// Put a mode change to the operator, on the new mode itself: if it can be
/// read, it works.
pub fn confirm_mode(s: &Screen, previous: (usize, usize), left: u32) -> (r: Vec<Draw>)
    ensures
        drawn(r@) == trial_draws(*s, previous, left),
{
    let mut out = clear();
    put_all(&mut out, s.header("Display"));
    put_all(&mut out, draw_question(s, previous, left));
    let mut hints: Vec<Hint<'static>> = no_hints();
    add_hint(&mut hints, "A", "keep this mode");
    add_hint(&mut hints, "B", "go back now");
    assert(hints_of(hints@) == seq![
        hint_view("A"@, "keep this mode"@),
        hint_view("B"@, "go back now"@),
    ]);
    put_all(&mut out, s.footer(hints.as_slice()));
    out
}

/// What came of trying a mode.
#[derive(Clone, Copy, PartialEq, Eq, Structural, Debug)]
pub enum Tried {
    /// The firmware would not set it.
    Refused,
    /// The operator kept it.
    Kept,
    /// It went unconfirmed, and the old one is back.
    Reverted,
    /// It went unconfirmed, and the old one will not come back.
    Stuck,
}

/// What the display screen says of it.
pub open spec fn tried_note(t: Tried) -> Option<Seq<char>> {
    match t {
        Tried::Refused => Some("The firmware would not set that mode."@),
        Tried::Kept => None,
        Tried::Reverted => Some("That mode went unconfirmed, so this one is back."@),
        Tried::Stuck => Some(
            "That mode went unconfirmed, and the old one will not come back."@,
        ),
    }
}

/// What the display screen says after a mode was tried.
///
/// Every way this can go wrong ends with the operator looking at a picture
/// they can read, but for a switch that works, is not confirmed and cannot
/// be undone, which is reported rather than papered over.
pub fn try_mode(t: Tried) -> (r: Option<&'static str>)
    ensures
        match r {
            Some(text) => tried_note(t) == Some(text@),
            None => tried_note(t) is None,
        },
{
    match t {
        Tried::Refused => Some("The firmware would not set that mode."),
        Tried::Kept => None,
        Tried::Reverted => Some("That mode went unconfirmed, so this one is back."),
        Tried::Stuck => Some("That mode went unconfirmed, and the old one will not come back."),
    }
}


/// The display screen does what the press says: left undoes right, up makes
/// the text bigger and down smaller, View tries the bigger mode where there is
/// one, and anything else leaves.
pub proof fn every_press_does_what_it_says(rotation: Rotation, upgrade: Option<Upgrade>)
    ensures
        display_meaning(rotation, upgrade, Input::Right) matches DisplayStep::Turn(r)
            ==> r != rotation && display_meaning(r, upgrade, Input::Left) == DisplayStep::Turn(
            rotation,
        ),
        display_meaning(rotation, upgrade, Input::Left) matches DisplayStep::Turn(r)
            ==> display_meaning(r, upgrade, Input::Right) == DisplayStep::Turn(rotation),
        display_meaning(rotation, upgrade, Input::Right) is Turn,
        display_meaning(rotation, upgrade, Input::Left) is Turn,
        display_meaning(rotation, upgrade, Input::Up) == (DisplayStep::Resize { bigger: true }),
        display_meaning(rotation, upgrade, Input::Down) == (DisplayStep::Resize { bigger: false }),
        upgrade matches Some(u) ==> display_meaning(rotation, upgrade, Input::View)
            == DisplayStep::Try(u.width, u.height),
        upgrade is None ==> display_meaning(rotation, upgrade, Input::View) is Leave,
        display_meaning(rotation, upgrade, Input::Select) is Leave,
        display_meaning(rotation, upgrade, Input::Cancel) is Leave,
{
}

/// A mode is kept only if the operator says so; going back is one press away,
/// and any other press leaves the clock running.
pub proof fn a_mode_is_kept_only_if_confirmed(t: Trial, polled: Option<Input>)
    requires
        t.wf(),
    ensures
        t.after(polled) == TrialStep::Keep <==> polled == Some(Input::Select),
        polled == Some(Input::Cancel) ==> t.after(polled) == TrialStep::Revert,
        polled != Some(Input::Select) && polled != Some(Input::Cancel) ==> t.after(polled)
            == t.after(None),
{
}

} // verus!
