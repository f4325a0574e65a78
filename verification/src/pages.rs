//! Pages, messages and menus: the three ways a screen waits for an answer.
//!
//! A Deck cannot scroll back, so anything longer than the screen has to be
//! navigable rather than simply printed and lost.

use crate::style::{shown, Line, LineView, Style};
use crate::text::{dec, dec_text, pad_right, pad_right_text, succ_text};
use crate::ui::{
    add_hint, clear, clear_draws, drawn, fit, fitted, hint_view, hints_of, ink, ink_of, less,
    lines_draws, no_hints, nothing, put, put_all, put_lines, Draw, DrawView, Hint, HintView, Ink,
    Input, Screen,
};
use vstd::prelude::*;

verus! {

/// Lines moved by one press of up or down in a report.
///
/// Not one. The Deck's D-pad repeats at about 1.8/s while held, so a line at
/// a time makes a long report a chore to walk. Three is enough to make
/// progress without losing your place, and left and right still move a
/// whole screen for getting somewhere else entirely.
pub const SCROLL_LINES: usize = 3;

// --------------------------------------------------------------------- page

/// How many lines of a page are on the screen at once: what the header, the
/// scroll indicator, the footer's rule, the footer and the row below it
/// leave.
pub open spec fn page_view(s: Screen) -> int {
    if less(s.rows as int, s.head() + 4) > 4 {
        less(s.rows as int, s.head() + 4)
    } else {
        4
    }
}

fn page_rows(s: &Screen) -> (r: usize)
    ensures
        r == page_view(*s),
{
    let left: usize = s.rows.saturating_sub(s.header_rows() + 4);
    if left > 4 {
        left
    } else {
        4
    }
}

/// The last line a page can start at.
pub open spec fn last_top(s: Screen, lines: int) -> int {
    less(lines, page_view(s))
}

/// Where a page starts that was last seen starting at `top`.
pub open spec fn clipped_top(s: Screen, lines: int, top: int) -> int {
    if top < last_top(s, lines) {
        top
    } else {
        last_top(s, lines)
    }
}

/// The row that says where in a long page the operator is.
pub open spec fn scroll_draws(s: Screen, lines: int, top: int) -> Seq<DrawView> {
    let view = page_view(s);
    if lines > view {
        seq![
            DrawView::At(0, less(s.rows as int, 4) as usize),
            DrawView::Paint(ink(Style::Key)),
            DrawView::Row(
                "  lines "@ + dec((top + 1) as nat) + "-"@ + dec((top + view) as nat) + " of "@
                    + dec(lines as nat) + "   up/down = "@ + dec(SCROLL_LINES as nat)
                    + " lines, left/right = a screen"@,
            ),
            DrawView::Paint(Ink::Body),
        ]
    } else {
        Seq::empty()
    }
}

/// What a page offers.
pub open spec fn page_hints(s: Screen) -> Seq<HintView> {
    seq![hint_view("A"@, "continue"@), hint_view("B"@, "back"@)] + s.display_hint()
}

/// A page as it is drawn.
pub open spec fn page_draws(s: Screen, title: Seq<char>, lines: Seq<LineView>, top: int) -> Seq<
    DrawView,
> {
    let at = clipped_top(s, lines.len() as int, top);
    let end = if at + page_view(s) < lines.len() {
        at + page_view(s)
    } else {
        lines.len() as int
    };
    clear_draws() + s.header_draws(title) + lines_draws(
        lines.subrange(at, end),
        (end - at) as nat,
        s.cols as int,
    ) + scroll_draws(s, lines.len() as int, at) + s.footer_draws(page_hints(s))
}

/// A scrollable page of text, ending in "continue" or "cancel".
pub struct Page {
    pub title: String,
    pub lines: Vec<Line>,
    /// The line at the top of the screen.
    pub top: usize,
}

/// What a press on a page comes to.
#[derive(Clone, Copy, PartialEq, Eq, Structural, Debug)]
pub enum PageStep {
    /// Draw it again.
    Stay,
    /// Done: whether the operator went on rather than back.
    Leave(bool),
}

/// Where a press leaves a page, if it stays up.
pub open spec fn page_moved(s: Screen, lines: int, top: int, input: Input) -> int {
    let at = clipped_top(s, lines, top);
    let last = last_top(s, lines);
    let view = page_view(s);
    match input {
        Input::Up => less(at, SCROLL_LINES as int),
        Input::Down => if at + SCROLL_LINES < last {
            at + SCROLL_LINES
        } else {
            last
        },
        Input::Left => less(at, view),
        Input::Right => if at + view < last {
            at + view
        } else {
            last
        },
        _ => at,
    }
}

impl Page {
    /// A page from its first line.
    pub fn new(title: String, lines: Vec<Line>) -> (r: Self)
        ensures
            r == (Page { title, lines, top: 0 }),
    {
        Page { title, lines, top: 0 }
    }

    /// Where the page starts on this screen: the grid may have changed
    /// under it since it was last drawn.
    fn start(&self, s: &Screen) -> (r: usize)
        ensures
            r == clipped_top(*s, self.lines@.len() as int, self.top as int),
    {
        let last: usize = self.lines.len().saturating_sub(page_rows(s));
        if self.top < last {
            self.top
        } else {
            last
        }
    }

    /// The page as it is drawn.
    pub fn draw(&self, s: &Screen) -> (r: Vec<Draw>)
        ensures
            drawn(r@) == page_draws(*s, self.title@, shown(self.lines@), self.top as int),
    {
        let view: usize = page_rows(s);
        let top: usize = self.start(s);
        let n: usize = self.lines.len();
        let end: usize = if n - top > view {
            top + view
        } else {
            n
        };
        let mut out = clear();
        put_all(&mut out, s.header(self.title.as_str()));
        let part = &self.lines.as_slice()[top..end];
        assert(shown(part@) =~= shown(self.lines@).subrange(top as int, end as int));
        put_lines(&mut out, part, s.cols);
        assert(part@.len() == end - top);
        assert(shown(self.lines@).len() == n);
        let ghost before = drawn(out@);
        if n > view {
            put(&mut out, Draw::At(0, s.rows.saturating_sub(4)));
            put(&mut out, Draw::Paint(ink_of(Style::Key)));
            let mut text = "  lines ".to_owned();
            text.push_str(succ_text(top as u64).as_str());
            text.push_str("-");
            text.push_str(dec_text(end as u64).as_str());
            text.push_str(" of ");
            text.push_str(dec_text(n as u64).as_str());
            text.push_str("   up/down = ");
            text.push_str(dec_text(SCROLL_LINES as u64).as_str());
            text.push_str(" lines, left/right = a screen");
            put(&mut out, Draw::Row(text));
            put(&mut out, Draw::Paint(Ink::Body));
        }
        assert(before == clear_draws() + s.header_draws(self.title@) + lines_draws(
            shown(self.lines@).subrange(top as int, end as int),
            (end - top) as nat,
            s.cols as int,
        ));
        assert(drawn(out@) =~= before + scroll_draws(*s, n as int, top as int));
        let mut hints: Vec<Hint<'static>> = no_hints();
        add_hint(&mut hints, "A", "continue");
        add_hint(&mut hints, "B", "back");
        s.add_display_hint(&mut hints);
        assert(hints_of(hints@) == page_hints(*s));
        put_all(&mut out, s.footer(hints.as_slice()));
        out
    }

    /// What a press does.
    pub fn press(&mut self, s: &Screen, input: Input) -> (r: PageStep)
        ensures
            r == match input {
                Input::Select => PageStep::Leave(true),
                Input::Cancel => PageStep::Leave(false),
                _ => PageStep::Stay,
            },
            final(self).title == old(self).title,
            final(self).lines == old(self).lines,
            final(self).top == page_moved(
                *s,
                old(self).lines@.len() as int,
                old(self).top as int,
                input,
            ),
    {
        let view: usize = page_rows(s);
        let last: usize = self.lines.len().saturating_sub(view);
        let at: usize = self.start(s);
        self.top = match input {
            Input::Up => at.saturating_sub(SCROLL_LINES),
            Input::Down => if last - at > SCROLL_LINES {
                at + SCROLL_LINES
            } else {
                last
            },
            Input::Left => at.saturating_sub(view),
            Input::Right => if last - at > view {
                at + view
            } else {
                last
            },
            _ => at,
        };
        match input {
            Input::Select => PageStep::Leave(true),
            Input::Cancel => PageStep::Leave(false),
            _ => PageStep::Stay,
        }
    }
}

/// Scrolling never runs past either end, and what is on the screen is
/// always a whole screenful while there is one.
pub proof fn scrolling_stays_on_the_page(s: Screen, lines: int, top: int, input: Input)
    requires
        0 <= top,
        0 <= lines,
    ensures
        0 <= page_moved(s, lines, top, input) <= last_top(s, lines),
        lines >= page_view(s) ==> page_moved(s, lines, top, input) + page_view(s) <= lines,
{
}

// ------------------------------------------------------------------ message

/// A message as it is drawn.
pub open spec fn message_draws(s: Screen, title: Seq<char>, lines: Seq<LineView>) -> Seq<DrawView> {
    clear_draws() + s.header_draws(title) + lines_draws(lines, lines.len(), s.cols as int)
        + s.footer_draws(seq![hint_view("A"@, "continue"@)] + s.display_hint())
}

/// A message with a single acknowledgement.
pub fn message(s: &Screen, title: &str, lines: &[Line]) -> (r: Vec<Draw>)
    ensures
        drawn(r@) == message_draws(*s, title@, shown(lines@)),
{
    let mut out = clear();
    put_all(&mut out, s.header(title));
    put_lines(&mut out, lines, s.cols);
    let mut hints: Vec<Hint<'static>> = no_hints();
    add_hint(&mut hints, "A", "continue");
    s.add_display_hint(&mut hints);
    put_all(&mut out, s.footer(hints.as_slice()));
    assert(shown(lines@).len() == lines@.len());
    out
}

/// Whether a press acknowledges a message.
pub fn acknowledges(input: Input) -> (r: bool)
    ensures
        r == (input == Input::Select || input == Input::Cancel),
{
    input == Input::Select || input == Input::Cancel
}

// --------------------------------------------------------------------- menu

/// One line of a menu: usually selectable, occasionally a blank spacer that
/// groups the rows around it.
pub struct Item {
    pub label: String,
    pub detail: Vec<Line>,
    pub selectable: bool,
}

/// An [`Item`] as a value.
pub struct ItemView {
    pub label: Seq<char>,
    pub detail: Seq<LineView>,
    pub selectable: bool,
}

impl View for Item {
    type V = ItemView;

    open spec fn view(&self) -> ItemView {
        ItemView {
            label: self.label@,
            detail: shown(self.detail@),
            selectable: self.selectable,
        }
    }
}

/// Items as values.
pub open spec fn items_of(v: Seq<Item>) -> Seq<ItemView> {
    Seq::new(v.len(), |i: int| v[i]@)
}

/// A row that can be chosen.
pub open spec fn item_view(label: Seq<char>, detail: Seq<LineView>) -> ItemView {
    ItemView { label, detail, selectable: true }
}

impl Item {
    pub fn with_detail(label: String, detail: Vec<Line>) -> (r: Self)
        ensures
            r@ == item_view(label@, shown(detail@)),
    {
        Item { label, detail, selectable: true }
    }

    /// A blank row the D-pad skips over, for splitting a menu into groups
    /// without a submenu neither group needs.
    pub fn separator() -> (r: Self)
        ensures
            r@ == (ItemView {
                label: Seq::empty(),
                detail: Seq::empty(),
                selectable: false,
            }),
    {
        let r = Item { label: String::new(), detail: Vec::new(), selectable: false };
        assert(shown(r.detail@) =~= Seq::<LineView>::empty());
        r
    }
}

pub(crate) fn add_item(out: &mut Vec<Item>, item: Item)
    ensures
        items_of(final(out)@) == items_of(old(out)@).push(item@),
{
    out.push(item);
    assert(items_of(out@) =~= items_of(old(out)@).push(item@));
}

pub(crate) fn no_items() -> (r: Vec<Item>)
    ensures
        items_of(r@) == Seq::<ItemView>::empty(),
{
    let r: Vec<Item> = Vec::new();
    assert(items_of(r@) =~= Seq::<ItemView>::empty());
    r
}

/// What came back from a menu.
#[derive(Clone, Copy, PartialEq, Eq, Structural, Debug)]
pub enum Choice {
    Item(usize),
    /// View was pressed on this item: show it in full, then come back.
    Inspect(usize),
    Cancelled,
}

/// Some row can be chosen.
pub open spec fn choosable(items: Seq<ItemView>) -> bool {
    exists|i: int| 0 <= i < items.len() && (#[trigger] items[i]).selectable
}

/// The row `k` rows down from `from`, or up, wrapping.
pub open spec fn row_at(from: int, k: int, down: bool, len: int) -> int {
    if down {
        (from + k) % len
    } else {
        (from - k) % len
    }
}

/// `r` is the next row from `from` that can be chosen: separators are
/// stepped over rather than landed on.
pub open spec fn is_next(items: Seq<ItemView>, from: int, down: bool, r: int) -> bool {
    exists|k: int|
        1 <= k <= items.len() && r == #[trigger] row_at(from, k, down, items.len() as int)
            && items[r].selectable && forall|j: int|
            1 <= j < k ==> !items[#[trigger] row_at(
                from,
                j,
                down,
                items.len() as int,
            )].selectable
}

/// The next selectable row from `from`, wrapping. Separators are stepped
/// over rather than landed on, so the D-pad never has to be pressed twice to
/// clear one.
pub fn step(items: &[Item], from: usize, down: bool) -> (r: usize)
    requires
        choosable(items_of(items@)),
        from < items@.len(),
    ensures
        r < items@.len(),
        is_next(items_of(items@), from as int, down, r as int),
{
    let ghost all = items_of(items@);
    let n: usize = items.len();
    let mut i: usize = from;
    let mut k: usize = 0;
    proof {
        vstd::arithmetic::div_mod::lemma_small_mod(from as nat, n as nat);
    }
    loop
        invariant
            n == items@.len(),
            all == items_of(items@),
            choosable(all),
            from < n,
            i < n,
            k <= n,
            i == row_at(from as int, k as int, down, n as int),
            forall|j: int|
                1 <= j <= k ==> !all[#[trigger] row_at(from as int, j, down, n as int)].selectable,
        decreases n - k,
    {
        if k == n {
            proof {
                all_rows_are_reached(all, from as int, down);
            }
        }
        let ghost before = i;
        i = if down {
            if i + 1 == n {
                0
            } else {
                i + 1
            }
        } else if i == 0 {
            n - 1
        } else {
            i - 1
        };
        proof {
            next_row(from as int, k as int, down, n as int);
        }
        k += 1;
        if items[i].selectable {
            assert(all[i as int].selectable);
            return i;
        }
        assert(!all[i as int].selectable);
    }
}

/// One row further is the row after, wrapping.
proof fn next_row(from: int, k: int, down: bool, len: int)
    requires
        0 < len,
    ensures
        0 <= row_at(from, k, down, len) < len,
        row_at(from, k + 1, down, len) == if down {
            if row_at(from, k, down, len) + 1 == len {
                0
            } else {
                row_at(from, k, down, len) + 1
            }
        } else {
            if row_at(from, k, down, len) == 0 {
                len - 1
            } else {
                row_at(from, k, down, len) - 1
            }
        },
{
    let x = if down {
        from + k
    } else {
        from - k
    };
    let (q, m) = (x / len, x % len);
    vstd::arithmetic::div_mod::lemma_fundamental_div_mod(x, len);
    assert(len * q == q * len) by (nonlinear_arith);
    if down {
        if m + 1 == len {
            assert((q + 1) * len == q * len + len) by (nonlinear_arith);
            vstd::arithmetic::div_mod::lemma_fundamental_div_mod_converse(x + 1, len, q + 1, 0);
        } else {
            vstd::arithmetic::div_mod::lemma_fundamental_div_mod_converse(x + 1, len, q, m + 1);
        }
    } else {
        if m == 0 {
            assert((q - 1) * len == q * len - len) by (nonlinear_arith);
            vstd::arithmetic::div_mod::lemma_fundamental_div_mod_converse(
                x - 1,
                len,
                q - 1,
                len - 1,
            );
        } else {
            vstd::arithmetic::div_mod::lemma_fundamental_div_mod_converse(x - 1, len, q, m - 1);
        }
    }
}

/// A full turn passes every row.
proof fn all_rows_are_reached(items: Seq<ItemView>, from: int, down: bool)
    requires
        choosable(items),
        0 <= from < items.len(),
    ensures
        exists|k: int|
            1 <= k <= items.len() && items[#[trigger] row_at(
                from,
                k,
                down,
                items.len() as int,
            )].selectable,
{
    let len = items.len() as int;
    let i = choose|i: int| 0 <= i < items.len() && (#[trigger] items[i]).selectable;
    let apart = if down {
        i - from
    } else {
        from - i
    };
    let k = if apart >= 1 {
        apart
    } else {
        apart + len
    };
    let x = if down {
        from + k
    } else {
        from - k
    };
    if x == i {
        vstd::arithmetic::div_mod::lemma_small_mod(i as nat, len as nat);
    } else if down {
        vstd::arithmetic::div_mod::lemma_fundamental_div_mod_converse(x, len, 1, i);
    } else {
        assert(-1 * len == -len);
        vstd::arithmetic::div_mod::lemma_fundamental_div_mod_converse(x, len, -1, i);
    }
    assert(row_at(from, k, down, len) == i);
}

/// The most detail lines any of the first `n` rows has.
pub open spec fn most_detail(items: Seq<ItemView>, n: nat) -> nat
    decreases n,
{
    if n == 0 {
        0
    } else {
        let before = most_detail(items, (n - 1) as nat);
        if items[n - 1].detail.len() > before {
            items[n - 1].detail.len()
        } else {
            before
        }
    }
}

/// A menu: its rows, and which is selected.
pub struct Menu {
    pub title: String,
    pub intro: Vec<Line>,
    pub items: Vec<Item>,
    /// What B does here, which differs between the top level ("exit") and a
    /// submenu ("back"). It is the action alone: the footer draws the
    /// button.
    pub back: String,
    /// What View does with the selected row, where it opens it for a closer
    /// look.
    pub inspect: Option<String>,
    pub selected: usize,
    /// The row at the top of the window.
    pub top: usize,
}

/// What a press on a menu comes to.
#[derive(Clone, Copy, PartialEq, Eq, Structural, Debug)]
pub enum MenuStep {
    /// Draw it again.
    Stay,
    /// Show the display screen, then draw it again.
    Display,
    Leave(Choice),
}

/// Held to between one and `len`.
pub open spec fn window(n: int, len: int) -> int {
    if n < 1 {
        1
    } else if n > len {
        len
    } else {
        n
    }
}

fn windowed(n: usize, len: usize) -> (r: usize)
    ensures
        r == window(n as int, len as int),
{
    if n < 1 {
        1
    } else if n > len {
        len
    } else {
        n
    }
}

impl Menu {
    /// There is something to choose, and the selection is one of it.
    pub open spec fn wf(self) -> bool {
        &&& self.selected < self.items@.len()
        &&& self.items@[self.selected as int].selectable
    }

    /// Rows that are not for items: header, intro, blank, blank, detail,
    /// rule, hint, blank.
    pub open spec fn overhead(self, s: Screen) -> int {
        s.head() + self.intro@.len() + 1 + most_detail(items_of(self.items@), self.items@.len())
            + 4
    }

    /// How many rows are on the screen at once. A menu that scrolls also
    /// shows where in it the selection is, which takes a row.
    pub open spec fn view_rows(self, s: Screen) -> int {
        let len = self.items@.len() as int;
        let view = window(less(s.rows as int, self.overhead(s)), len);
        if len > view {
            window(less(s.rows as int, self.overhead(s) + 1), len)
        } else {
            view
        }
    }

    /// The row at the top of the window, with the selection inside it.
    pub open spec fn settled_top(self, s: Screen) -> int {
        let view = self.view_rows(s);
        if self.selected < self.top {
            self.selected as int
        } else if self.selected >= self.top + view {
            self.selected + 1 - view
        } else {
            self.top as int
        }
    }

    /// The draws of the rows from `first` to `end`.
    pub open spec fn row_draws(self, s: Screen, first: int, end: int) -> Seq<DrawView>
        decreases end - first,
    {
        if end <= first {
            Seq::empty()
        } else {
            self.row_draws(s, first, end - 1) + self.one_row(s, end - 1)
        }
    }

    /// The draws of one row: the same left margin whether it is selected or
    /// not, and a bar that spans the row where it is.
    pub open spec fn one_row(self, s: Screen, i: int) -> Seq<DrawView> {
        let width = less(s.cols as int, 3);
        let text = fitted(self.items@[i].label@, width);
        if i == self.selected {
            seq![
                DrawView::Paint(Ink::Highlight),
                DrawView::Row(" "@ + seq![s.marker] + " "@ + pad_right(text, width as nat)),
                DrawView::Paint(Ink::Body),
            ]
        } else {
            seq![DrawView::Row("   "@ + text)]
        }
    }

    /// The row that says where in a long menu the selection is.
    pub open spec fn place_draws(self, s: Screen) -> Seq<DrawView> {
        if self.items@.len() > self.view_rows(s) {
            seq![
                DrawView::Paint(ink(Style::Dim)),
                DrawView::Row(
                    "   ... "@ + dec((self.selected + 1) as nat) + " of "@ + dec(
                        self.items@.len(),
                    ),
                ),
                DrawView::Paint(Ink::Body),
            ]
        } else {
            Seq::empty()
        }
    }

    /// What the menu offers.
    pub open spec fn menu_hints(self, s: Screen) -> Seq<HintView> {
        (seq![hint_view("D-pad"@, "move"@), hint_view("A"@, "choose"@)] + (match self.inspect {
            Some(action) => seq![hint_view("View"@, action@)],
            None => s.display_hint(),
        })).push(hint_view("B"@, self.back@))
    }

    /// The menu as it is drawn.
    pub open spec fn menu_draws(self, s: Screen) -> Seq<DrawView> {
        let top = self.settled_top(s);
        let view = self.view_rows(s);
        let end = if top + view < self.items@.len() {
            top + view
        } else {
            self.items@.len() as int
        };
        let detail = shown(self.items@[self.selected as int].detail@);
        (clear_draws() + s.header_draws(self.title@) + lines_draws(
            shown(self.intro@),
            self.intro@.len(),
            s.cols as int,
        )).push(DrawView::Row(Seq::empty())) + self.row_draws(s, top, end) + self.place_draws(s)
            + seq![DrawView::Row(Seq::empty())] + lines_draws(
            detail,
            detail.len(),
            s.cols as int,
        ) + s.footer_draws(self.menu_hints(s))
    }

    /// A menu with its selection at `start`, or at the next row that can be
    /// chosen. `None` if there is nothing in it to choose from.
    pub fn new(
        title: String,
        intro: Vec<Line>,
        items: Vec<Item>,
        back: String,
        inspect: Option<String>,
        start: usize,
    ) -> (r: Option<Self>)
        ensures
            r is Some == choosable(items_of(items@)),
            r matches Some(m) ==> {
                let first = if start < items@.len() {
                    start as int
                } else {
                    items@.len() - 1
                };
                &&& m.wf()
                &&& m.title == title
                &&& m.intro == intro
                &&& m.items == items
                &&& m.back == back
                &&& m.inspect == inspect
                &&& m.top == 0
                &&& if items@[first].selectable {
                    m.selected == first
                } else {
                    is_next(items_of(items@), first, true, m.selected as int)
                }
            },
    {
        let ghost all = items_of(items@);
        let mut any = false;
        let mut i: usize = 0;
        while i < items.len()
            invariant
                i <= items@.len(),
                all == items_of(items@),
                any ==> choosable(all),
                !any ==> forall|j: int| 0 <= j < i ==> !(#[trigger] all[j]).selectable,
            decreases items@.len() - i,
        {
            if items[i].selectable {
                any = true;
                assert(all[i as int].selectable);
            }
            i += 1;
        }
        if !any {
            assert(!choosable(all));
            return None;
        }
        let mut selected: usize = if start < items.len() {
            start
        } else {
            items.len() - 1
        };
        if !items[selected].selectable {
            selected = step(items.as_slice(), selected, true);
            assert(all[selected as int].selectable);
        }
        Some(Menu { title, intro, items, back, inspect, selected, top: 0 })
    }

    fn detail_rows(&self) -> (r: usize)
        ensures
            r == most_detail(items_of(self.items@), self.items@.len()),
    {
        let ghost all = items_of(self.items@);
        let mut most: usize = 0;
        let mut i: usize = 0;
        while i < self.items.len()
            invariant
                i <= self.items@.len(),
                all == items_of(self.items@),
                most == most_detail(all, i as nat),
            decreases self.items@.len() - i,
        {
            assert(all[i as int].detail.len() == self.items@[i as int].detail@.len());
            if self.items[i].detail.len() > most {
                most = self.items[i].detail.len();
            }
            i += 1;
        }
        most
    }

    fn view(&self, s: &Screen) -> (r: usize)
        ensures
            r == self.view_rows(*s),
    {
        let left: usize = s.rows.saturating_sub(s.header_rows()).saturating_sub(
            self.intro.len(),
        ).saturating_sub(1).saturating_sub(self.detail_rows()).saturating_sub(4);
        let view: usize = windowed(left, self.items.len());
        if self.items.len() > view {
            windowed(left.saturating_sub(1), self.items.len())
        } else {
            view
        }
    }

    fn settle(&self, s: &Screen) -> (r: usize)
        requires
            self.wf(),
        ensures
            r == self.settled_top(*s),
            r <= self.selected,
    {
        let view: usize = self.view(s);
        if self.selected < self.top {
            self.selected
        } else if self.selected - self.top >= view {
            self.selected - (view - 1)
        } else {
            self.top
        }
    }

    fn put_row(&self, s: &Screen, i: usize, out: &mut Vec<Draw>)
        requires
            i < self.items@.len(),
        ensures
            drawn(final(out)@) == drawn(old(out)@) + self.one_row(*s, i as int),
    {
        let width: usize = s.cols.saturating_sub(3);
        let text = fit(self.items[i].label.as_str(), width);
        if i == self.selected {
            put(out, Draw::Paint(Ink::Highlight));
            let mut row = " ".to_owned();
            row.push(s.marker);
            let ghost so_far = row@;
            assert(so_far =~= " "@ + seq![s.marker]);
            row.push_str(" ");
            row.push_str(pad_right_text(text.as_str(), width).as_str());
            put(out, Draw::Row(row));
            put(out, Draw::Paint(Ink::Body));
        } else {
            let mut row = "   ".to_owned();
            row.push_str(text.as_str());
            put(out, Draw::Row(row));
        }
        assert(drawn(out@) =~= drawn(old(out)@) + self.one_row(*s, i as int));
    }

    /// The menu as it is drawn.
    pub fn draw(&self, s: &Screen) -> (r: Vec<Draw>)
        requires
            self.wf(),
        ensures
            drawn(r@) == self.menu_draws(*s),
    {
        let view: usize = self.view(s);
        let top: usize = self.settle(s);
        let n: usize = self.items.len();
        let end: usize = if n - top > view {
            top + view
        } else {
            n
        };
        let mut out = clear();
        put_all(&mut out, s.header(self.title.as_str()));
        put_lines(&mut out, self.intro.as_slice(), s.cols);
        let blank = String::new();
        assert(blank@ =~= Seq::<char>::empty());
        put(&mut out, Draw::Row(blank));
        let ghost before = drawn(out@);
        assert(before == (clear_draws() + s.header_draws(self.title@) + lines_draws(
            shown(self.intro@),
            self.intro@.len(),
            s.cols as int,
        )).push(DrawView::Row(Seq::empty())));
        let mut i: usize = top;
        assert(drawn(out@) =~= before + self.row_draws(*s, top as int, top as int));
        while i < end
            invariant
                top <= i <= end <= self.items@.len(),
                drawn(out@) == before + self.row_draws(*s, top as int, i as int),
            decreases end - i,
        {
            self.put_row(s, i, &mut out);
            i += 1;
            assert(drawn(out@) =~= before + self.row_draws(*s, top as int, i as int));
        }
        let ghost rows = drawn(out@);
        if n > view {
            put(&mut out, Draw::Paint(ink_of(Style::Dim)));
            let mut text = "   ... ".to_owned();
            text.push_str(succ_text(self.selected as u64).as_str());
            text.push_str(" of ");
            text.push_str(dec_text(n as u64).as_str());
            put(&mut out, Draw::Row(text));
            put(&mut out, Draw::Paint(Ink::Body));
        }
        assert(drawn(out@) =~= rows + self.place_draws(*s));
        let blank = String::new();
        assert(blank@ =~= Seq::<char>::empty());
        let ghost placed = drawn(out@);
        put(&mut out, Draw::Row(blank));
        assert(drawn(out@) =~= placed + seq![DrawView::Row(Seq::empty())]);
        put_lines(&mut out, self.items[self.selected].detail.as_slice(), s.cols);
        assert(shown(self.items@[self.selected as int].detail@).len()
            == self.items@[self.selected as int].detail@.len());
        let mut hints: Vec<Hint> = no_hints();
        add_hint(&mut hints, "D-pad", "move");
        add_hint(&mut hints, "A", "choose");
        let ghost two = hints_of(hints@);
        match &self.inspect {
            Some(action) => add_hint(&mut hints, "View", action.as_str()),
            None => {
                if s.turnable {
                    add_hint(&mut hints, "View", "configure display");
                }
            },
        }
        assert(hints_of(hints@) =~= two + (match self.inspect {
            Some(action) => seq![hint_view("View"@, action@)],
            None => s.display_hint(),
        }));
        add_hint(&mut hints, "B", self.back.as_str());
        assert(hints_of(hints@) == self.menu_hints(*s));
        put_all(&mut out, s.footer(hints.as_slice()));
        out
    }

    /// What a press does.
    pub fn press(&mut self, s: &Screen, input: Input) -> (r: MenuStep)
        requires
            old(self).wf(),
        ensures
            final(self).wf(),
            r == match input {
                Input::Select => MenuStep::Leave(Choice::Item(old(self).selected)),
                Input::Cancel => MenuStep::Leave(Choice::Cancelled),
                Input::View => if old(self).inspect is Some {
                    MenuStep::Leave(Choice::Inspect(old(self).selected))
                } else {
                    MenuStep::Display
                },
                _ => MenuStep::Stay,
            },
            match input {
                Input::Up => is_next(
                    items_of(old(self).items@),
                    old(self).selected as int,
                    false,
                    final(self).selected as int,
                ),
                Input::Down => is_next(
                    items_of(old(self).items@),
                    old(self).selected as int,
                    true,
                    final(self).selected as int,
                ),
                _ => final(self).selected == old(self).selected,
            },
            final(self).top == old(self).settled_top(*s),
            final(self).title == old(self).title,
            final(self).intro == old(self).intro,
            final(self).items == old(self).items,
            final(self).back == old(self).back,
            final(self).inspect == old(self).inspect,
    {
        let ghost all = items_of(self.items@);
        assert(all[self.selected as int].selectable);
        self.top = self.settle(s);
        match input {
            Input::Up => {
                self.selected = step(self.items.as_slice(), self.selected, false);
                assert(all[self.selected as int].selectable);
                MenuStep::Stay
            },
            Input::Down => {
                self.selected = step(self.items.as_slice(), self.selected, true);
                assert(all[self.selected as int].selectable);
                MenuStep::Stay
            },
            Input::Select => MenuStep::Leave(Choice::Item(self.selected)),
            Input::Cancel => MenuStep::Leave(Choice::Cancelled),
            Input::View => if self.inspect.is_some() {
                MenuStep::Leave(Choice::Inspect(self.selected))
            } else {
                MenuStep::Display
            },
            _ => MenuStep::Stay,
        }
    }
}

/// The selected row is always inside the window that is drawn.
pub proof fn the_selection_is_on_the_screen(m: Menu, s: Screen)
    requires
        m.wf(),
    ensures
        m.settled_top(s) <= m.selected < m.settled_top(s) + m.view_rows(s),
{
}


/// Scrolling goes the way it was asked to, never past either end, and never
/// further than what is on the screen, so that no line is skipped.
pub proof fn no_line_is_skipped(s: Screen, lines: int, top: int)
    requires
        0 <= top <= last_top(s, lines),
        0 <= lines,
    ensures
        top < last_top(s, lines) ==> page_moved(s, lines, top, Input::Down) > top && page_moved(
            s,
            lines,
            top,
            Input::Right,
        ) > top,
        top > 0 ==> page_moved(s, lines, top, Input::Up) < top && page_moved(
            s,
            lines,
            top,
            Input::Left,
        ) < top,
        page_moved(s, lines, top, Input::Down) <= top + page_view(s),
        page_moved(s, lines, top, Input::Right) <= top + page_view(s),
        page_moved(s, lines, top, Input::Up) >= top - page_view(s),
        page_moved(s, lines, top, Input::Left) >= top - page_view(s),
        page_moved(s, lines, top, Input::View) == top,
        last_top(s, lines) + page_view(s) >= lines,
        lines <= page_view(s) <==> last_top(s, lines) == 0,
        top + 3 <= last_top(s, lines) ==> page_moved(s, lines, top, Input::Down) == top + 3,
        top >= 3 ==> page_moved(s, lines, top, Input::Up) == top - 3,
{
}


/// A down or an up goes to the next row that can be chosen, past any that
/// cannot, and no row that can be is passed over.
pub proof fn no_choice_is_passed_over(items: Seq<ItemView>, from: int, down: bool, r: int, other: int)
    requires
        0 <= from < items.len(),
        is_next(items, from, down, r),
        0 <= other < items.len(),
        items[other].selectable,
    ensures
        items[r].selectable,
        down && from < other ==> r <= other,
        down && from < other ==> from < r,
        !down && other < from ==> other <= r < from,
{
    let len = items.len() as int;
    let k = choose|k: int|
        1 <= k <= len && r == #[trigger] row_at(from, k, down, len) && items[r].selectable
            && forall|j: int|
            1 <= j < k ==> !items[#[trigger] row_at(from, j, down, len)].selectable;
    if down && from < other {
        let j = other - from;
        vstd::arithmetic::div_mod::lemma_small_mod(other as nat, len as nat);
        assert(row_at(from, j, down, len) == other);
        assert(k <= j);
        vstd::arithmetic::div_mod::lemma_small_mod((from + k) as nat, len as nat);
    }
    if !down && other < from {
        let j = from - other;
        vstd::arithmetic::div_mod::lemma_small_mod(other as nat, len as nat);
        assert(row_at(from, j, down, len) == other);
        assert(k <= j);
        vstd::arithmetic::div_mod::lemma_small_mod((from - k) as nat, len as nat);
    }
}

} // verus!
