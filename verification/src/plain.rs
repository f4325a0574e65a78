//! The screens of the small rescue tool: plain text, one highlight bar, no
//! colours to speak of.
//!
//! Built for the same hardware as [`crate::ui`]: a D-pad, A, B and View, no
//! keyboard and no scrollback, so every screen has to fit the display and be
//! navigable with a D-pad.

use crate::consent::{confirm_presses, press_label, sequence, step_name, Gate, GateStep, PRESSES};
use crate::text::{
    dec, dec_text, filled, filled_text, from_chars, pad_right, pad_right_text, strings_of,
    succ_text, to_chars,
};
use crate::ui::{drawn, less, nothing, put, put_all, Draw, DrawView, Ink, Input};
use vstd::prelude::*;

verus! {

/// How much of a row is written to.
pub open spec fn row_limit(columns: int) -> int {
    if columns > 9 {
        columns - 1
    } else {
        8
    }
}

/// `line` cut to the display width.
pub open spec fn clipped(line: Seq<char>, columns: int) -> Seq<char> {
    if line.len() <= row_limit(columns) {
        line
    } else {
        line.take(row_limit(columns) - 1).push('~')
    }
}

/// Clip to the display width.
///
/// A device path is routinely longer than 80 columns, and letting it wrap
/// pushes everything below it off the bottom of a screen that cannot scroll
/// back.
pub fn fit(line: &str, columns: usize) -> (r: String)
    ensures
        r@ == clipped(line@, columns as int),
{
    let limit: usize = if columns > 9 {
        columns - 1
    } else {
        8
    };
    let chars = to_chars(line);
    if chars.len() <= limit {
        return line.to_owned();
    }
    assert(chars@.subrange(0, limit - 1) =~= chars@.take(limit - 1));
    let mut out = from_chars(&chars.as_slice()[0..limit - 1]);
    out.push('~');
    out
}

/// The line under a title.
pub open spec fn rule_text(columns: int) -> Seq<char> {
    filled(
        '-',
        if less(columns, 1) > 78 {
            78
        } else {
            less(columns, 1) as nat
        },
    )
}

fn rule(columns: usize) -> (r: String)
    ensures
        r@ == rule_text(columns as int),
{
    let n: usize = columns.saturating_sub(1);
    filled_text('-', if n > 78 { 78 } else { n })
}

/// The title of a screen.
pub open spec fn heading(title: Seq<char>, cols: int) -> Seq<DrawView> {
    seq![
        DrawView::Clear,
        DrawView::At(0, 0),
        DrawView::Row(clipped(title, cols)),
        DrawView::Row(rule_text(cols)),
    ]
}

fn draw_heading(title: &str, cols: usize) -> (r: Vec<Draw>)
    ensures
        drawn(r@) == heading(title@, cols as int),
{
    let mut out = nothing();
    put(&mut out, Draw::Clear);
    put(&mut out, Draw::At(0, 0));
    put(&mut out, Draw::Row(fit(title, cols)));
    put(&mut out, Draw::Row(rule(cols)));
    out
}

/// The lines from `first` up to `end`, each on its row.
pub open spec fn line_rows(lines: Seq<Seq<char>>, cols: int, first: int, end: int) -> Seq<DrawView>
    decreases end - first,
{
    if end <= first {
        Seq::empty()
    } else {
        line_rows(lines, cols, first, end - 1).push(DrawView::Row(clipped(lines[end - 1], cols)))
    }
}

fn put_rows(out: &mut Vec<Draw>, lines: &[String], cols: usize, first: usize, end: usize)
    requires
        first <= end <= lines@.len(),
    ensures
        drawn(final(out)@) == drawn(old(out)@) + line_rows(
            strings_of(lines@),
            cols as int,
            first as int,
            end as int,
        ),
{
    let ghost before = drawn(out@);
    let mut i: usize = first;
    assert(drawn(out@) =~= before + line_rows(
        strings_of(lines@),
        cols as int,
        first as int,
        first as int,
    ));
    while i < end
        invariant
            first <= i <= end <= lines@.len(),
            drawn(out@) == before + line_rows(
                strings_of(lines@),
                cols as int,
                first as int,
                i as int,
            ),
        decreases end - i,
    {
        let ghost now = line_rows(strings_of(lines@), cols as int, first as int, i as int);
        put(out, Draw::Row(fit(lines[i].as_str(), cols)));
        i += 1;
        assert(drawn(out@) =~= before + now.push(
            DrawView::Row(clipped(lines@[i - 1]@, cols as int)),
        ));
    }
}

// --------------------------------------------------------------------- page

/// How many lines of a page are on the screen at once.
pub open spec fn page_room(rows: int) -> int {
    if rows > 10 {
        rows - 6
    } else {
        4
    }
}

fn room_of(rows: usize) -> (r: usize)
    ensures
        r == page_room(rows as int),
{
    if rows > 10 {
        rows - 6
    } else {
        4
    }
}

/// The smaller of two numbers.
pub open spec fn least(a: int, b: int) -> int {
    if a < b {
        a
    } else {
        b
    }
}

/// A page of text, from line `top` on.
pub open spec fn page_draws(
    title: Seq<char>,
    lines: Seq<Seq<char>>,
    cols: int,
    rows: int,
    top: int,
) -> Seq<DrawView> {
    let view = page_room(rows);
    let end = least(top + view, lines.len() as int);
    let text = heading(title, cols) + line_rows(lines, cols, least(top, end), end).push(
        DrawView::At(0, less(rows, 2) as usize),
    );
    let place = if lines.len() > view {
        text.push(
            DrawView::Row(
                "  lines "@ + dec((top + 1) as nat) + "-"@ + dec(end as nat) + " of "@ + dec(
                    lines.len(),
                ) + "   D-pad up/down to scroll"@,
            ),
        )
    } else {
        text
    };
    place.push(DrawView::Text("  A = continue    B = back"@))
}

/// A scrollable page of text, ending in "continue" or "back".
pub fn page(title: &str, lines: &[String], cols: usize, rows: usize, top: usize) -> (r: Vec<Draw>)
    ensures
        drawn(r@) == page_draws(
            title@,
            strings_of(lines@),
            cols as int,
            rows as int,
            top as int,
        ),
{
    let view: usize = room_of(rows);
    assert(lines.len() == lines@.len());
    assert(strings_of(lines@).len() == lines@.len());
    let end: usize = if top >= lines.len() || lines.len() - top <= view {
        lines.len()
    } else {
        top + view
    };
    let first: usize = if top < end {
        top
    } else {
        end
    };
    let mut out = draw_heading(title, cols);
    let mut text = nothing();
    put_rows(&mut text, lines, cols, first, end);
    put(&mut text, Draw::At(0, rows.saturating_sub(2)));
    assert(drawn(text@) =~= line_rows(strings_of(lines@), cols as int, first as int, end as int).push(
        DrawView::At(0, less(rows as int, 2) as usize),
    ));
    put_all(&mut out, text);
    if lines.len() > view {
        let mut s = "  lines ".to_owned();
        s.push_str(succ_text(top as u64).as_str());
        s.push_str("-");
        s.push_str(dec_text(end as u64).as_str());
        s.push_str(" of ");
        s.push_str(dec_text(lines.len() as u64).as_str());
        s.push_str("   D-pad up/down to scroll");
        put(&mut out, Draw::Row(s));
    }
    put(&mut out, Draw::Text("  A = continue    B = back".to_owned()));
    out
}

/// What a press on a page does.
#[derive(Clone, Copy, PartialEq, Eq, Structural, Debug)]
pub enum PagePress {
    /// Show it from this line on.
    From(usize),
    /// The operator went on, or back.
    Answered(bool),
}

/// What a press on a page does: up and down by a line, left and right by a
/// screenful, never past either end.
pub open spec fn page_after(lines: int, rows: int, top: int, input: Input) -> PagePress {
    let view = page_room(rows);
    let last = less(lines, view);
    match input {
        Input::Up => PagePress::From(less(top, 1) as usize),
        Input::Down => PagePress::From(least(top + 1, last) as usize),
        Input::Left => PagePress::From(less(top, view) as usize),
        Input::Right => PagePress::From(least(top + view, last) as usize),
        Input::Select => PagePress::Answered(true),
        Input::Cancel => PagePress::Answered(false),
        Input::View => PagePress::From(top as usize),
    }
}

/// What a press on a page does.
pub fn page_press(lines: usize, rows: usize, top: usize, input: Input) -> (r: PagePress)
    ensures
        r == page_after(lines as int, rows as int, top as int, input),
{
    let view: usize = room_of(rows);
    let last: usize = lines.saturating_sub(view);
    match input {
        Input::Up => PagePress::From(top.saturating_sub(1)),
        Input::Down => PagePress::From(if top >= last {
            last
        } else {
            top + 1
        }),
        Input::Left => PagePress::From(top.saturating_sub(view)),
        Input::Right => PagePress::From(if top >= last || last - top <= view {
            last
        } else {
            top + view
        }),
        Input::Select => PagePress::Answered(true),
        Input::Cancel => PagePress::Answered(false),
        Input::View => PagePress::From(top),
    }
}

/// A message with a single acknowledgement.
pub open spec fn message_draws(title: Seq<char>, lines: Seq<Seq<char>>, cols: int, rows: int) -> Seq<
    DrawView,
> {
    heading(title, cols) + line_rows(lines, cols, 0, lines.len() as int).push(
        DrawView::At(0, less(rows, 2) as usize),
    ).push(DrawView::Text("  A = continue"@))
}

/// A message with a single acknowledgement.
pub fn message(title: &str, lines: &[String], cols: usize, rows: usize) -> (r: Vec<Draw>)
    ensures
        drawn(r@) == message_draws(title@, strings_of(lines@), cols as int, rows as int),
{
    let mut out = draw_heading(title, cols);
    let mut text = nothing();
    assert(lines.len() == lines@.len());
    put_rows(&mut text, lines, cols, 0, lines.len());
    put(&mut text, Draw::At(0, rows.saturating_sub(2)));
    put(&mut text, Draw::Text("  A = continue".to_owned()));
    assert(drawn(text@) =~= line_rows(
        strings_of(lines@),
        cols as int,
        0,
        lines@.len() as int,
    ).push(DrawView::At(0, less(rows as int, 2) as usize)).push(
        DrawView::Text("  A = continue"@),
    ));
    put_all(&mut out, text);
    out
}

// --------------------------------------------------------------------- menu

/// One selectable line, plus whatever should be shown about it while it is
/// selected.
pub struct Item {
    pub label: String,
    pub detail: Vec<String>,
}

/// The most lines any of the first `n` items shows.
pub open spec fn most_detail(items: Seq<Item>, n: nat) -> nat
    decreases n,
{
    if n == 0 {
        0
    } else {
        let rest = most_detail(items, (n - 1) as nat);
        let here = items[n - 1].detail@.len();
        if here > rest {
            here
        } else {
            rest
        }
    }
}

/// How many items are on the screen at once, beside the title, the rule, the
/// intro, the detail and the hint.
pub open spec fn menu_room(intro: int, items: Seq<Item>, rows: int) -> int {
    let room = less(rows, 2 + intro + 1 + most_detail(items, items.len()) + 3);
    if room < 1 {
        1
    } else {
        least(room, items.len() as int)
    }
}

/// The first item on the screen, so that the selection is on it.
pub open spec fn menu_top(top: int, selected: int, view: int) -> int {
    if selected < top {
        selected
    } else if selected >= top + view {
        selected + 1 - view
    } else {
        top
    }
}

/// One item, with a bar across the row where it is selected.
pub open spec fn item_rows(label: Seq<char>, selected: bool, cols: int) -> Seq<DrawView> {
    if selected {
        seq![
            DrawView::Paint(Ink::Highlight),
            DrawView::Row(
                "  "@ + pad_right(clipped(label, less(cols, 4)), less(cols, 5) as nat) + " "@,
            ),
            DrawView::Paint(Ink::Body),
        ]
    } else {
        seq![DrawView::Row("   "@ + clipped(label, less(cols, 3)))]
    }
}

/// The items from `first` up to `end`.
pub open spec fn items_rows(
    items: Seq<Item>,
    selected: int,
    cols: int,
    first: int,
    end: int,
) -> Seq<DrawView>
    decreases end - first,
{
    if end <= first {
        Seq::empty()
    } else {
        items_rows(items, selected, cols, first, end - 1) + item_rows(
            items[end - 1].label@,
            end - 1 == selected,
            cols,
        )
    }
}

/// A menu with a highlight bar.
pub open spec fn menu_draws(
    title: Seq<char>,
    intro: Seq<Seq<char>>,
    items: Seq<Item>,
    hint: Seq<char>,
    cols: int,
    rows: int,
    top: int,
    selected: int,
) -> Seq<DrawView> {
    let view = menu_room(intro.len() as int, items, rows);
    let first = menu_top(top, selected, view);
    let end = least(first + view, items.len() as int);
    let head = (heading(title, cols) + line_rows(intro, cols, 0, intro.len() as int)).push(
        DrawView::Row(""@),
    ) + items_rows(items, selected, cols, first, end);
    let place = if items.len() > view {
        head.push(
            DrawView::Row(
                "   ... "@ + dec((selected + 1) as nat) + " of "@ + dec(items.len()),
            ),
        )
    } else {
        head
    };
    let detail = strings_of(items[selected].detail@);
    (place.push(DrawView::Row(""@)) + line_rows(detail, cols, 0, detail.len() as int)).push(
        DrawView::At(0, less(rows, 2) as usize),
    ).push(DrawView::Text("  D-pad = move    A = choose    "@ + hint))
}

fn detail_of(items: &[Item]) -> (r: usize)
    ensures
        r == most_detail(items@, items@.len()),
{
    let mut most: usize = 0;
    let mut i: usize = 0;
    while i < items.len()
        invariant
            i <= items@.len(),
            most == most_detail(items@, i as nat),
        decreases items@.len() - i,
    {
        let here: usize = items[i].detail.len();
        if here > most {
            most = here;
        }
        i += 1;
    }
    most
}

fn menu_view(intro: usize, items: &[Item], rows: usize) -> (r: usize)
    requires
        items@.len() > 0,
    ensures
        r == menu_room(intro as int, items@, rows as int),
        1 <= r <= items@.len(),
{
    let room: usize = rows.saturating_sub(6).saturating_sub(intro).saturating_sub(
        detail_of(items),
    );
    if room < 1 {
        1
    } else if room < items.len() {
        room
    } else {
        items.len()
    }
}

fn draw_item(label: &str, selected: bool, cols: usize) -> (r: Vec<Draw>)
    ensures
        drawn(r@) == item_rows(label@, selected, cols as int),
{
    let mut out = nothing();
    if selected {
        put(&mut out, Draw::Paint(Ink::Highlight));
        // Padded so the bar spans the row rather than hugging the text.
        let text = fit(label, cols.saturating_sub(4));
        let mut s = "  ".to_owned();
        s.push_str(pad_right_text(text.as_str(), cols.saturating_sub(5)).as_str());
        s.push_str(" ");
        put(&mut out, Draw::Row(s));
        put(&mut out, Draw::Paint(Ink::Body));
    } else {
        let mut s = "   ".to_owned();
        s.push_str(fit(label, cols.saturating_sub(3)).as_str());
        put(&mut out, Draw::Row(s));
    }
    assert(drawn(out@) =~= item_rows(label@, selected, cols as int));
    out
}

fn draw_items(items: &[Item], selected: usize, cols: usize, first: usize, end: usize) -> (r: Vec<
    Draw,
>)
    requires
        first <= end <= items@.len(),
    ensures
        drawn(r@) == items_rows(
            items@,
            selected as int,
            cols as int,
            first as int,
            end as int,
        ),
{
    let mut out = nothing();
    let mut i: usize = first;
    while i < end
        invariant
            first <= i <= end <= items@.len(),
            drawn(out@) == items_rows(
                items@,
                selected as int,
                cols as int,
                first as int,
                i as int,
            ),
        decreases end - i,
    {
        put_all(&mut out, draw_item(items[i].label.as_str(), i == selected, cols));
        i += 1;
    }
    out
}

/// Where the list starts, so that the selection is on the screen.
pub fn scrolled(intro: usize, items: &[Item], rows: usize, top: usize, selected: usize) -> (r: usize)
    requires
        selected < items@.len(),
    ensures
        r == menu_top(top as int, selected as int, menu_room(intro as int, items@, rows as int)),
        r <= selected < r + menu_room(intro as int, items@, rows as int),
{
    let view: usize = menu_view(intro, items, rows);
    if selected < top {
        selected
    } else if selected - top >= view {
        selected - (view - 1)
    } else {
        top
    }
}

/// A D-pad menu with a highlight bar. `hint` names what B does here.
pub fn menu(
    title: &str,
    intro: &[String],
    items: &[Item],
    hint: &str,
    cols: usize,
    rows: usize,
    top: usize,
    selected: usize,
) -> (r: Vec<Draw>)
    requires
        selected < items@.len(),
    ensures
        drawn(r@) == menu_draws(
            title@,
            strings_of(intro@),
            items@,
            hint@,
            cols as int,
            rows as int,
            top as int,
            selected as int,
        ),
{
    assert(intro.len() == intro@.len());
    assert(items.len() == items@.len());
    assert(strings_of(intro@).len() == intro@.len());
    let view: usize = menu_view(intro.len(), items, rows);
    let first: usize = scrolled(intro.len(), items, rows, top, selected);
    let end: usize = if items.len() - first <= view {
        items.len()
    } else {
        first + view
    };
    let mut out = draw_heading(title, cols);
    put_rows(&mut out, intro, cols, 0, intro.len());
    put(&mut out, Draw::Row("".to_owned()));
    put_all(&mut out, draw_items(items, selected, cols, first, end));
    if items.len() > view {
        let mut s = "   ... ".to_owned();
        s.push_str(succ_text(selected as u64).as_str());
        s.push_str(" of ");
        s.push_str(dec_text(items.len() as u64).as_str());
        put(&mut out, Draw::Row(s));
    }
    put(&mut out, Draw::Row("".to_owned()));
    let detail = items[selected].detail.as_slice();
    assert(detail.len() == detail@.len());
    assert(strings_of(detail@).len() == detail@.len());
    put_rows(&mut out, detail, cols, 0, detail.len());
    put(&mut out, Draw::At(0, rows.saturating_sub(2)));
    let mut s = "  D-pad = move    A = choose    ".to_owned();
    s.push_str(hint);
    put(&mut out, Draw::Text(s));
    out
}

/// What a press on a menu does.
#[derive(Clone, Copy, PartialEq, Eq, Structural, Debug)]
pub enum MenuPress {
    /// This item is selected.
    At(usize),
    /// The selected item was chosen.
    Chosen(usize),
    /// The operator backed out.
    Back,
}

/// What a press on a menu does: up and down go round.
pub open spec fn menu_after(len: int, selected: int, input: Input) -> MenuPress {
    match input {
        Input::Up => MenuPress::At(
            (if selected == 0 {
                len - 1
            } else {
                selected - 1
            }) as usize,
        ),
        Input::Down => MenuPress::At(
            (if selected + 1 == len {
                0
            } else {
                selected + 1
            }) as usize,
        ),
        Input::Select => MenuPress::Chosen(selected as usize),
        Input::Cancel => MenuPress::Back,
        _ => MenuPress::At(selected as usize),
    }
}

/// What a press on a menu does.
pub fn menu_press(len: usize, selected: usize, input: Input) -> (r: MenuPress)
    requires
        selected < len,
    ensures
        r == menu_after(len as int, selected as int, input),
        r matches MenuPress::At(i) ==> i < len,
        r matches MenuPress::Chosen(i) ==> i < len,
{
    match input {
        Input::Up => MenuPress::At(if selected == 0 {
            len - 1
        } else {
            selected - 1
        }),
        Input::Down => MenuPress::At(if selected + 1 == len {
            0
        } else {
            selected + 1
        }),
        Input::Select => MenuPress::Chosen(selected),
        Input::Cancel => MenuPress::Back,
        _ => MenuPress::At(selected),
    }
}

// --------------------------------------------------------------------- gate

/// What a press at the lock does. There is no display screen here, so View
/// is a wrong press like any other.
pub open spec fn gate_after(g: Gate, input: Input) -> GateStep {
    if input == Input::View {
        GateStep::Waiting(Gate { position: 0, wrong: true })
    } else {
        g.after(input)
    }
}

/// What a press at the lock does. Any wrong press resets progress; B cancels
/// outright.
pub fn gate_press(g: Gate, input: Input) -> (r: GateStep)
    requires
        g.wf(),
    ensures
        r == gate_after(g, input),
        r matches GateStep::Waiting(g) ==> g.wf(),
{
    if input == Input::View {
        return GateStep::Waiting(Gate { position: 0, wrong: true });
    }
    g.press(input)
}

/// The names of the first `n` presses, in order.
pub open spec fn step_names(n: nat) -> Seq<char>
    decreases n,
{
    if n == 0 {
        "     "@
    } else {
        step_names((n - 1) as nat) + press_label(sequence()[n - 1]) + "  "@
    }
}

/// A box for each of the first `n`, under its name.
pub open spec fn step_marks(n: nat, position: int) -> Seq<char>
    decreases n,
{
    if n == 0 {
        "     "@
    } else {
        step_marks((n - 1) as nat, position) + (if n - 1 < position {
            "[x]"@
        } else {
            "[ ]"@
        }) + filled(' ', less(press_label(sequence()[n - 1]).len() as int, 1) as nat)
    }
}

/// What is said of the last press.
pub open spec fn gate_note(g: Gate) -> Seq<DrawView> {
    if g.wrong {
        seq![DrawView::Row("  wrong button - sequence reset"@)]
    } else if g.position > 0 {
        seq![DrawView::Row("  next: "@ + press_label(sequence()[g.position as int]))]
    } else {
        Seq::empty()
    }
}

/// The screen that asks for the sequence.
pub open spec fn gate_draws(
    title: Seq<char>,
    warning: Seq<Seq<char>>,
    cols: int,
    rows: int,
    g: Gate,
) -> Seq<DrawView> {
    (heading(title, cols) + line_rows(warning, cols, 0, warning.len() as int)).push(
        DrawView::Row(""@),
    ).push(DrawView::Row("  To authorise this, press in order:"@)).push(DrawView::Row(""@)).push(
        DrawView::Row(step_names(PRESSES as nat)),
    ).push(DrawView::Row(step_marks(PRESSES as nat, g.position as int))).push(
        DrawView::Row(""@),
    ) + gate_note(g).push(DrawView::At(0, less(rows, 2) as usize)).push(
        DrawView::Text("  B = cancel, nothing is written"@),
    )
}

fn draw_names() -> (r: String)
    ensures
        r@ == step_names(PRESSES as nat),
{
    let wanted = confirm_presses();
    let mut names = "     ".to_owned();
    let mut i: usize = 0;
    while i < PRESSES
        invariant
            i <= PRESSES,
            wanted@ == sequence(),
            names@ == step_names(i as nat),
        decreases PRESSES - i,
    {
        names.push_str(step_name(wanted[i]));
        names.push_str("  ");
        i += 1;
    }
    names
}

fn draw_marks(position: usize) -> (r: String)
    ensures
        r@ == step_marks(PRESSES as nat, position as int),
{
    let wanted = confirm_presses();
    let mut marks = "     ".to_owned();
    let mut i: usize = 0;
    while i < PRESSES
        invariant
            i <= PRESSES,
            wanted@ == sequence(),
            marks@ == step_marks(i as nat, position as int),
        decreases PRESSES - i,
    {
        let mark = if i < position {
            "[x]"
        } else {
            "[ ]"
        };
        marks.push_str(mark);
        let name = to_chars(step_name(wanted[i]));
        marks.push_str(filled_text(' ', name.len().saturating_sub(1)).as_str());
        i += 1;
    }
    marks
}

/// The screen that asks for the sequence before a destructive write.
pub fn confirm_sequence(title: &str, warning: &[String], cols: usize, rows: usize, g: Gate) -> (r:
    Vec<Draw>)
    requires
        g.wf(),
    ensures
        drawn(r@) == gate_draws(title@, strings_of(warning@), cols as int, rows as int, g),
{
    assert(warning.len() == warning@.len());
    assert(strings_of(warning@).len() == warning@.len());
    let mut out = draw_heading(title, cols);
    put_rows(&mut out, warning, cols, 0, warning.len());
    put(&mut out, Draw::Row("".to_owned()));
    put(&mut out, Draw::Row("  To authorise this, press in order:".to_owned()));
    put(&mut out, Draw::Row("".to_owned()));
    put(&mut out, Draw::Row(draw_names()));
    put(&mut out, Draw::Row(draw_marks(g.position)));
    put(&mut out, Draw::Row("".to_owned()));
    let mut end = nothing();
    if g.wrong {
        put(&mut end, Draw::Row("  wrong button - sequence reset".to_owned()));
    } else if g.position > 0 {
        let mut s = "  next: ".to_owned();
        s.push_str(step_name(confirm_presses()[g.position]));
        put(&mut end, Draw::Row(s));
    }
    put(&mut end, Draw::At(0, rows.saturating_sub(2)));
    put(&mut end, Draw::Text("  B = cancel, nothing is written".to_owned()));
    assert(drawn(end@) =~= gate_note(g).push(DrawView::At(0, less(rows as int, 2) as usize)).push(
        DrawView::Text("  B = cancel, nothing is written"@),
    ));
    put_all(&mut out, end);
    out
}

// --------------------------------------------------------------------- laws

/// A page never scrolls past its end, and a page that is shown from within
/// bounds stays within them.
pub proof fn scrolling_stays_on_the_page(lines: int, rows: int, top: int, input: Input)
    requires
        0 <= top <= less(lines, page_room(rows)),
        0 <= lines <= usize::MAX,
    ensures
        page_after(lines, rows, top, input) matches PagePress::From(t) ==> 0 <= t <= less(
            lines,
            page_room(rows),
        ),
{
}

/// A line that was cut to fit still fits.
pub proof fn clipped_lines_fit(line: Seq<char>, columns: int)
    ensures
        clipped(line, columns).len() <= row_limit(columns),
{
}


/// Up undoes down, both go round at the ends, A chooses what is selected and
/// B goes back.
pub proof fn a_menu_goes_round(len: int, selected: int)
    requires
        0 <= selected < len <= usize::MAX,
    ensures
        menu_after(len, selected, Input::Down) matches MenuPress::At(next) ==> menu_after(
            len,
            next as int,
            Input::Up,
        ) == MenuPress::At(selected as usize),
        menu_after(len, selected, Input::Down) == MenuPress::At(
            (if selected == len - 1 {
                0int
            } else {
                selected + 1
            }) as usize,
        ),
        menu_after(len, selected, Input::Up) is At,
        menu_after(len, selected, Input::Select) == MenuPress::Chosen(selected as usize),
        menu_after(len, selected, Input::Cancel) == MenuPress::Back,
        menu_after(len, selected, Input::Left) == MenuPress::At(selected as usize),
        menu_after(len, selected, Input::Right) == MenuPress::At(selected as usize),
{
}

/// What is selected is always among the rows shown.
pub proof fn the_selected_row_is_shown(top: int, selected: int, view: int)
    requires
        0 <= top,
        0 <= selected,
        1 <= view,
    ensures
        menu_top(top, selected, view) <= selected < menu_top(top, selected, view) + view,
        top <= selected < top + view ==> menu_top(top, selected, view) == top,
{
}

} // verus!
