//! The operator's side of the conversation: what every screen shows, and
//! what every button does on it.
//!
//! Built for a Steam Deck in firmware, which means: no keyboard, no
//! scrollback, and a D-pad, A, B and View. Every screen therefore has to
//! fit the display and be navigable with a D-pad.
//!
//! A screen is a list of [`Draw`] commands against a character grid with
//! cursor positioning and sixteen colours, carried out by the firmware's
//! own text console or by [`crate::console`]. What a press does is a
//! function from the state of the screen and the [`Input`]; the application
//! draws, waits for a press, and asks again.
//!
//! Which colour a line gets is decided by the [`Style`] the writer attached
//! to it, never by inspecting the text here: rewording a message must not
//! silently change what it looks like.

use crate::gfx::Color;
use crate::style::{shown, wrap, wrapped_lines, Line, LineView, Style};
use crate::text::{
    content_of, filled, filled_text, same_text, to_chars,
};
use vstd::prelude::*;

verus! {

// -------------------------------------------------------------------- input

/// What the hardware can actually say.
///
/// Note two collisions measured on the Deck: QAM is indistinguishable from
/// A, and the burger button from B. Neither can carry a separate meaning.
#[derive(Clone, Copy, PartialEq, Eq, Structural, Debug)]
pub enum Input {
    Up,
    Down,
    Left,
    Right,
    /// A, or QAM.
    Select,
    /// B, or the burger button.
    Cancel,
    /// The View button, which arrives as TAB.
    View,
}

/// A key as the firmware reports it.
#[derive(Clone, Copy, PartialEq, Eq, Structural, Debug)]
pub enum Key {
    /// A scan code, for a key that is not a character.
    Special(u16),
    Printable(char),
}

/// What a key means.
pub open spec fn meaning(key: Key) -> Option<Input> {
    match key {
        Key::Special(code) => if code == 0x01 {
            Some(Input::Up)
        } else if code == 0x02 {
            Some(Input::Down)
        } else if code == 0x03 {
            Some(Input::Right)
        } else if code == 0x04 {
            Some(Input::Left)
        } else if code == 0x17 {
            Some(Input::Cancel)
        } else {
            None
        },
        Key::Printable(c) => if c == '\r' || c == '\n' {
            Some(Input::Select)
        } else if c == '\t' {
            Some(Input::View)
        } else {
            None
        },
    }
}

/// What a key means, if it means anything.
pub fn input_of(key: Key) -> (r: Option<Input>)
    ensures
        r == meaning(key),
{
    match key {
        Key::Special(code) => if code == 0x01 {
            Some(Input::Up)
        } else if code == 0x02 {
            Some(Input::Down)
        } else if code == 0x03 {
            Some(Input::Right)
        } else if code == 0x04 {
            Some(Input::Left)
        } else if code == 0x17 {
            Some(Input::Cancel)
        } else {
            None
        },
        Key::Printable(c) => if c == '\r' || c == '\n' {
            Some(Input::Select)
        } else if c == '\t' {
            Some(Input::View)
        } else {
            None
        },
    }
}

// ------------------------------------------------------------------ drawing

/// What text is drawn in.
#[derive(Clone, Copy, PartialEq, Eq, Structural, Debug)]
pub enum Ink {
    /// Body text. Also the state everything is restored to, so a screen
    /// never inherits a colour from whatever drew before it.
    Body,
    Title,
    Dim,
    Good,
    Warn,
    Bad,
    Key,
    /// The selected row in a menu.
    Highlight,
    /// The button names in the key hints along the bottom.
    ///
    /// A colour used nowhere else, and deliberately so. Nothing else on the
    /// screen names a physical button, so a colour that means only that
    /// costs no ambiguity elsewhere.
    HintKey,
}

/// What a line in this style is drawn in.
pub open spec fn ink(style: Style) -> Ink {
    match style {
        Style::Normal => Ink::Body,
        Style::Title => Ink::Title,
        Style::Dim => Ink::Dim,
        Style::Good => Ink::Good,
        Style::Warn => Ink::Warn,
        Style::Bad => Ink::Bad,
        Style::Key => Ink::Key,
    }
}

pub(crate) fn ink_of(style: Style) -> (r: Ink)
    ensures
        r == ink(style),
{
    match style {
        Style::Normal => Ink::Body,
        Style::Title => Ink::Title,
        Style::Dim => Ink::Dim,
        Style::Good => Ink::Good,
        Style::Warn => Ink::Warn,
        Style::Bad => Ink::Bad,
        Style::Key => Ink::Key,
    }
}

/// The foreground and the background.
pub open spec fn pair_of(ink: Ink) -> (Color, Color) {
    match ink {
        Ink::Body => (Color::LightGray, Color::Black),
        Ink::Title => (Color::White, Color::Black),
        Ink::Dim => (Color::DarkGray, Color::Black),
        Ink::Good => (Color::LightGreen, Color::Black),
        Ink::Warn => (Color::Yellow, Color::Black),
        Ink::Bad => (Color::LightRed, Color::Black),
        Ink::Key => (Color::LightCyan, Color::Black),
        Ink::Highlight => (Color::Black, Color::Cyan),
        Ink::HintKey => (Color::LightMagenta, Color::Black),
    }
}

/// The foreground and the background.
///
/// The light variants are used throughout because a UEFI console renders
/// the dark ones very dark on a black background, and this has to be
/// legible on a 7-inch handheld display at arm's length.
pub fn colors(ink: Ink) -> (r: (Color, Color))
    ensures
        r == pair_of(ink),
{
    match ink {
        Ink::Body => (Color::LightGray, Color::Black),
        Ink::Title => (Color::White, Color::Black),
        Ink::Dim => (Color::DarkGray, Color::Black),
        Ink::Good => (Color::LightGreen, Color::Black),
        Ink::Warn => (Color::Yellow, Color::Black),
        Ink::Bad => (Color::LightRed, Color::Black),
        Ink::Key => (Color::LightCyan, Color::Black),
        Ink::Highlight => (Color::Black, Color::Cyan),
        Ink::HintKey => (Color::LightMagenta, Color::Black),
    }
}

/// One thing to do to the screen.
#[derive(Debug)]
pub enum Draw {
    /// Fill it with the background in force.
    Clear,
    /// Put the cursor here.
    At(usize, usize),
    /// Draw in these colours from here on.
    Paint(Ink),
    /// Write this at the cursor.
    Text(String),
    /// Write this at the cursor, and go to the next row.
    Row(String),
}

/// A [`Draw`] as a value.
pub enum DrawView {
    Clear,
    At(usize, usize),
    Paint(Ink),
    Text(Seq<char>),
    Row(Seq<char>),
}

impl View for Draw {
    type V = DrawView;

    open spec fn view(&self) -> DrawView {
        match self {
            Draw::Clear => DrawView::Clear,
            Draw::At(col, row) => DrawView::At(*col, *row),
            Draw::Paint(ink) => DrawView::Paint(*ink),
            Draw::Text(text) => DrawView::Text(text@),
            Draw::Row(text) => DrawView::Row(text@),
        }
    }
}

/// Commands as values.
pub open spec fn drawn(v: Seq<Draw>) -> Seq<DrawView> {
    Seq::new(v.len(), |i: int| v[i]@)
}

pub(crate) fn nothing() -> (r: Vec<Draw>)
    ensures
        drawn(r@) == Seq::<DrawView>::empty(),
{
    let r: Vec<Draw> = Vec::new();
    assert(drawn(r@) =~= Seq::<DrawView>::empty());
    r
}

pub(crate) fn put(out: &mut Vec<Draw>, d: Draw)
    ensures
        drawn(final(out)@) == drawn(old(out)@).push(d@),
{
    out.push(d);
    assert(drawn(out@) =~= drawn(old(out)@).push(d@));
}

pub(crate) fn put_all(out: &mut Vec<Draw>, more: Vec<Draw>)
    ensures
        drawn(final(out)@) == drawn(old(out)@) + drawn(more@),
{
    let ghost added = more@;
    let mut rest = more;
    out.append(&mut rest);
    assert(drawn(out@) =~= drawn(old(out)@) + drawn(added));
}

/// What a screen is drawn on, and what every screen of an operation is
/// about.
pub struct Screen {
    pub cols: usize,
    pub rows: usize,
    /// Named under the title of every screen: the disk an operation works
    /// on. The disk picker is skipped when there is only one disk, so a
    /// screen proposing to overwrite a partition table cannot rely on the
    /// operator having just chosen the disk by hand.
    pub subject: Option<String>,
    /// A Deck has a D-pad and an A, B and View button and no keyboard;
    /// anything else has a keyboard and none of those.
    pub deck: bool,
    /// The picture can be turned, so View leads to the display screen.
    pub turnable: bool,
    /// Marks a menu's selected row.
    pub marker: char,
}

/// `a` less `b`, and never below zero.
pub open spec fn less(a: int, b: int) -> int {
    if a > b {
        a - b
    } else {
        0
    }
}

// --------------------------------------------------------------------- text

/// The widest a line may be before it is cut.
pub open spec fn writable_width(columns: int) -> int {
    if columns - 1 > 8 {
        columns - 1
    } else {
        8
    }
}

/// The widest a line may be before [`fit`] starts cutting it.
///
/// One short of the screen, so a full-width line does not wrap the cursor
/// onto the next row of its own accord.
pub fn text_width(columns: usize) -> (r: usize)
    ensures
        r == writable_width(columns as int),
{
    if columns > 9 {
        columns - 1
    } else {
        8
    }
}

/// Break a long value across lines instead of cutting it off with a `~`.
pub fn wrapped(text: &str, style: Style, hang: &str, columns: usize) -> (r: Vec<Line>)
    ensures
        shown(r@) == wrapped_lines(text@, writable_width(columns as int) as nat, style, hang@),
{
    wrap(text, text_width(columns), style, hang)
}

/// A control character.
pub open spec fn is_control(c: char) -> bool {
    (c as u32) < 0x20 || 0x7F <= (c as u32) <= 0x9F
}

/// `text` with a dot in place of every control character.
pub open spec fn neutral(text: Seq<char>) -> Seq<char> {
    Seq::new(
        text.len(),
        |i: int|
            if is_control(text[i]) {
                '.'
            } else {
                text[i]
            },
    )
}

/// `text` cut to the display width.
pub open spec fn fitted(text: Seq<char>, columns: int) -> Seq<char> {
    let limit = writable_width(columns);
    if text.len() <= limit {
        neutral(text)
    } else {
        neutral(text).take(limit - 1).push('~')
    }
}

/// Clip to the display width.
///
/// A device path is routinely longer than 80 columns, and letting it wrap
/// pushes everything below it off the bottom of a screen that cannot scroll
/// back. Control characters are neutralised, because a menu row's label may
/// hold a boot entry's own description.
pub fn fit(text: &str, columns: usize) -> (r: String)
    ensures
        r@ == fitted(text@, columns as int),
{
    let limit: usize = text_width(columns);
    let chars = to_chars(text);
    let keep: usize = if chars.len() <= limit {
        chars.len()
    } else {
        limit - 1
    };
    let mut out = String::new();
    let mut i: usize = 0;
    assert(neutral(text@).take(0) =~= Seq::<char>::empty());
    while i < keep
        invariant
            i <= keep <= chars@.len(),
            chars@ == text@,
            out@ == neutral(text@).take(i as int),
        decreases keep - i,
    {
        let c: char = chars[i];
        let v: u32 = c as u32;
        if v < 0x20 || (0x7F <= v && v <= 0x9F) {
            out.push('.');
        } else {
            out.push(c);
        }
        i += 1;
        assert(neutral(text@).take(i as int) =~= neutral(text@).take(i - 1).push(
            neutral(text@)[i - 1],
        ));
    }
    if chars.len() > limit {
        out.push('~');
    } else {
        assert(neutral(text@).take(i as int) =~= neutral(text@));
    }
    out
}

/// A line that was cut to fit still fits, and says where it was cut.
pub proof fn fitted_lines_fit(text: Seq<char>, columns: int)
    ensures
        fitted(text, columns).len() <= writable_width(columns),
        text.len() > writable_width(columns) ==> fitted(text, columns).last() == '~',
        forall|i: int| 0 <= i < fitted(text, columns).len() ==> !is_control(
            #[trigger] fitted(text, columns)[i],
        ),
{
}

/// One styled line, then back to body colour.
pub open spec fn styled_draws(l: LineView, cols: int) -> Seq<DrawView> {
    if l.style == Style::Normal {
        seq![DrawView::Row(fitted(l.text, cols))]
    } else {
        seq![
            DrawView::Paint(ink(l.style)),
            DrawView::Row(fitted(l.text, cols)),
            DrawView::Paint(Ink::Body),
        ]
    }
}

/// The first `n` of some styled lines, one after the other.
pub open spec fn lines_draws(lines: Seq<LineView>, n: nat, cols: int) -> Seq<DrawView>
    decreases n,
{
    if n == 0 {
        Seq::empty()
    } else {
        lines_draws(lines, (n - 1) as nat, cols) + styled_draws(lines[n - 1], cols)
    }
}

pub(crate) fn put_styled(out: &mut Vec<Draw>, l: &Line, cols: usize)
    ensures
        drawn(final(out)@) == drawn(old(out)@) + styled_draws(l@, cols as int),
{
    if l.style == Style::Normal {
        put(out, Draw::Row(fit(l.text.as_str(), cols)));
    } else {
        put(out, Draw::Paint(ink_of(l.style)));
        put(out, Draw::Row(fit(l.text.as_str(), cols)));
        put(out, Draw::Paint(Ink::Body));
    }
    assert(drawn(out@) =~= drawn(old(out)@) + styled_draws(l@, cols as int));
}

pub(crate) fn put_lines(out: &mut Vec<Draw>, lines: &[Line], cols: usize)
    ensures
        drawn(final(out)@) == drawn(old(out)@) + lines_draws(
            shown(lines@),
            lines@.len(),
            cols as int,
        ),
{
    let mut i: usize = 0;
    let ghost all = shown(lines@);
    assert(drawn(out@) =~= drawn(old(out)@) + lines_draws(all, 0, cols as int));
    while i < lines.len()
        invariant
            i <= lines@.len(),
            all == shown(lines@),
            drawn(out@) == drawn(old(out)@) + lines_draws(all, i as nat, cols as int),
        decreases lines@.len() - i,
    {
        put_styled(out, &lines[i], cols);
        i += 1;
        assert(drawn(out@) =~= drawn(old(out)@) + lines_draws(all, i as nat, cols as int));
    }
}

/// The line under a heading, one short of the full width.
pub open spec fn rule_text(cols: int) -> Seq<char> {
    filled('-', less(cols, 1) as nat)
}

pub(crate) fn rule(cols: usize) -> (r: String)
    ensures
        r@ == rule_text(cols as int),
{
    filled_text('-', cols.saturating_sub(1))
}

/// Clear to the body colour.
pub open spec fn clear_draws() -> Seq<DrawView> {
    seq![DrawView::Paint(Ink::Body), DrawView::Clear]
}

/// Clear the screen.
///
/// The colour is reset first: clearing fills the screen with the *current*
/// background, so clearing while a highlight is active would paint the
/// whole display.
pub fn clear() -> (r: Vec<Draw>)
    ensures
        drawn(r@) == clear_draws(),
{
    let mut out = nothing();
    put(&mut out, Draw::Paint(Ink::Body));
    put(&mut out, Draw::Clear);
    out
}

impl Screen {
    /// Rows the header occupies: the title, the subject if there is one,
    /// and the rule.
    pub open spec fn head(self) -> int {
        if self.subject is Some {
            3
        } else {
            2
        }
    }

    /// Rows the header occupies. Every screen that has to know how much
    /// room is left asks.
    pub fn header_rows(&self) -> (r: usize)
        ensures
            r == self.head(),
    {
        if self.subject.is_some() {
            3
        } else {
            2
        }
    }

    /// The title, what every screen of the operation is about, and a rule.
    pub open spec fn header_draws(self, title: Seq<char>) -> Seq<DrawView> {
        seq![
            DrawView::At(0, 0),
            DrawView::Paint(ink(Style::Title)),
            DrawView::Row(fitted(title, self.cols as int)),
        ] + (match content_of(self.subject) {
            Some(text) => seq![
                DrawView::Paint(ink(Style::Key)),
                DrawView::Row("  "@ + fitted(text, less(self.cols as int, 2))),
            ],
            None => Seq::<DrawView>::empty(),
        }) + seq![
            DrawView::Paint(ink(Style::Dim)),
            DrawView::Row(rule_text(self.cols as int)),
            DrawView::Paint(Ink::Body),
        ]
    }

    pub(crate) fn header(&self, title: &str) -> (r: Vec<Draw>)
        ensures
            drawn(r@) == self.header_draws(title@),
    {
        let mut out = nothing();
        put(&mut out, Draw::At(0, 0));
        put(&mut out, Draw::Paint(ink_of(Style::Title)));
        put(&mut out, Draw::Row(fit(title, self.cols)));
        let ghost top = drawn(out@);
        match &self.subject {
            Some(text) => {
                // Key, because this is the thing on the screen that must
                // actually be taken in: the disk about to be written to.
                put(&mut out, Draw::Paint(ink_of(Style::Key)));
                let mut s = "  ".to_owned();
                s.push_str(fit(text.as_str(), self.cols.saturating_sub(2)).as_str());
                put(&mut out, Draw::Row(s));
            },
            None => {},
        }
        put(&mut out, Draw::Paint(ink_of(Style::Dim)));
        put(&mut out, Draw::Row(rule(self.cols)));
        put(&mut out, Draw::Paint(Ink::Body));
        assert(drawn(out@) =~= self.header_draws(title@));
        out
    }
}

/// Names what every screen is about while it is held.
#[derive(Debug)]
pub struct Subtitle {
    pub what: String,
}

pub fn working_on(what: String) -> (r: Subtitle)
    ensures
        r.what == what,
{
    Subtitle { what }
}

// ------------------------------------------------------------------ the hints

/// One button, and what it does on this screen.
///
/// A pair rather than a formatted string because the two halves are painted
/// differently.
#[derive(Clone, Copy)]
pub struct Hint<'a> {
    pub key: &'a str,
    pub action: &'a str,
}

/// A [`Hint`] as a value.
pub struct HintView {
    pub key: Seq<char>,
    pub action: Seq<char>,
}

impl<'a> View for Hint<'a> {
    type V = HintView;

    open spec fn view(&self) -> HintView {
        HintView { key: self.key@, action: self.action@ }
    }
}

/// Hints as values.
pub open spec fn hints_of(v: Seq<Hint<'_>>) -> Seq<HintView> {
    Seq::new(v.len(), |i: int| v[i]@)
}

/// A hint from its two halves.
pub open spec fn hint_view(key: Seq<char>, action: Seq<char>) -> HintView {
    HintView { key, action }
}

pub(crate) fn no_hints<'a>() -> (r: Vec<Hint<'a>>)
    ensures
        hints_of(r@) == Seq::<HintView>::empty(),
{
    let r: Vec<Hint<'a>> = Vec::new();
    assert(hints_of(r@) =~= Seq::<HintView>::empty());
    r
}

pub(crate) fn add_hint<'a>(out: &mut Vec<Hint<'a>>, key: &'a str, action: &'a str)
    ensures
        hints_of(final(out)@) == hints_of(old(out)@).push(hint_view(key@, action@)),
{
    out.push(Hint { key, action });
    assert(hints_of(out@) =~= hints_of(old(out)@).push(hint_view(key@, action@)));
}

/// What the footer calls a button, on this machine.
pub open spec fn button(deck: bool, key: Seq<char>) -> Seq<char> {
    if deck {
        key
    } else if key == "A"@ {
        "Enter"@
    } else if key == "B"@ {
        "Escape"@
    } else if key == "View"@ {
        "Tab"@
    } else if key == "D-pad"@ {
        "Arrows"@
    } else {
        key
    }
}

/// What the footer calls a button, on this machine.
///
/// A keyboard's Enter, Escape, Tab and arrow keys are the same [`Input`]
/// the Deck's pad sends, so the two are interchangeable everywhere but
/// here: the one place that tells the operator what to press has to name
/// what they actually have in hand. Anything not named below reads the same
/// on both, so it passes through.
pub fn key_label<'a>(deck: bool, key: &'a str) -> (r: &'a str)
    ensures
        r@ == button(deck, key@),
{
    if deck {
        key
    } else if same_text(key, "A") {
        "Enter"
    } else if same_text(key, "B") {
        "Escape"
    } else if same_text(key, "View") {
        "Tab"
    } else if same_text(key, "D-pad") {
        "Arrows"
    } else {
        key
    }
}

/// The columns a hint takes: the gap before it, and "[key] action".
pub open spec fn hint_width(deck: bool, h: HintView, first: bool) -> int {
    (if first {
        2int
    } else {
        3
    }) + button(deck, h.key).len() + 3 + h.action.len()
}

/// The hints from `i` on, as long as they fit behind the `used` columns.
///
/// Hints that will not fit are dropped rather than wrapped: a hint spilling
/// onto the last row would push the whole footer out of the place operators
/// learn to look at.
pub open spec fn hint_draws(
    deck: bool,
    hints: Seq<HintView>,
    i: int,
    used: int,
    limit: int,
) -> Seq<DrawView>
    decreases hints.len() - i,
{
    if i < 0 || i >= hints.len() || used + hint_width(deck, hints[i], i == 0) > limit {
        Seq::empty()
    } else {
        seq![
            DrawView::Text(
                filled(
                    ' ',
                    if i == 0 {
                        2
                    } else {
                        3
                    },
                ),
            ),
            DrawView::Paint(Ink::HintKey),
            DrawView::Text("["@ + button(deck, hints[i].key) + "]"@),
            DrawView::Paint(Ink::Body),
            DrawView::Text(" "@ + hints[i].action),
        ] + hint_draws(deck, hints, i + 1, used + hint_width(deck, hints[i], i == 0), limit)
    }
}

impl Screen {
    /// The key hints along the bottom: what the operator can press, and
    /// what it will do.
    pub open spec fn footer_draws(self, hints: Seq<HintView>) -> Seq<DrawView> {
        seq![
            DrawView::At(0, less(self.rows as int, 3) as usize),
            DrawView::Paint(ink(Style::Dim)),
            DrawView::Text(rule_text(self.cols as int)),
            DrawView::At(0, less(self.rows as int, 2) as usize),
            DrawView::Paint(Ink::Body),
        ] + hint_draws(self.deck, hints, 0, 0, writable_width(self.cols as int)) + seq![
            DrawView::Paint(Ink::Body),
        ]
    }

    pub(crate) fn footer(&self, hints: &[Hint]) -> (r: Vec<Draw>)
        ensures
            drawn(r@) == self.footer_draws(hints_of(hints@)),
    {
        let limit: usize = text_width(self.cols);
        let mut out = nothing();
        put(&mut out, Draw::At(0, self.rows.saturating_sub(3)));
        put(&mut out, Draw::Paint(ink_of(Style::Dim)));
        put(&mut out, Draw::Text(rule(self.cols)));
        put(&mut out, Draw::At(0, self.rows.saturating_sub(2)));
        put(&mut out, Draw::Paint(Ink::Body));
        let ghost head = drawn(out@);
        let ghost all = hints_of(hints@);
        let ghost want = head + hint_draws(self.deck, all, 0, 0, limit as int);
        let mut used: usize = 0;
        let mut i: usize = 0;
        while i < hints.len()
            invariant_except_break
                i <= hints@.len(),
                used <= limit,
                all == hints_of(hints@),
                drawn(out@) + hint_draws(self.deck, all, i as int, used as int, limit as int)
                    == want,
            ensures
                drawn(out@) == want,
            decreases hints@.len() - i,
        {
            let ghost before = drawn(out@);
            let key = key_label(self.deck, hints[i].key);
            let gap: usize = if i == 0 {
                2
            } else {
                3
            };
            let key_len: usize = key.unicode_len();
            let action_len: usize = hints[i].action.unicode_len();
            let width: u128 = gap as u128 + key_len as u128 + 3 + action_len as u128;
            if width > (limit - used) as u128 {
                assert(drawn(out@) + Seq::<DrawView>::empty() =~= drawn(out@));
                break;
            }
            put(&mut out, Draw::Text(filled_text(' ', gap)));
            put(&mut out, Draw::Paint(Ink::HintKey));
            let mut s = "[".to_owned();
            s.push_str(key);
            s.push_str("]");
            put(&mut out, Draw::Text(s));
            put(&mut out, Draw::Paint(Ink::Body));
            let mut s = " ".to_owned();
            s.push_str(hints[i].action);
            put(&mut out, Draw::Text(s));
            used = used + width as usize;
            i += 1;
            proof {
                let tail = hint_draws(self.deck, all, i as int, used as int, limit as int);
                let added = seq![
                    DrawView::Text(
                        filled(
                            ' ',
                            if i == 1 {
                                2
                            } else {
                                3
                            },
                        ),
                    ),
                    DrawView::Paint(Ink::HintKey),
                    DrawView::Text("["@ + button(self.deck, all[i - 1].key) + "]"@),
                    DrawView::Paint(Ink::Body),
                    DrawView::Text(" "@ + all[i - 1].action),
                ];
                assert(drawn(out@) =~= before + added);
                assert(before + added + tail =~= before + (added + tail));
            }
            if i == hints.len() {
                assert(drawn(out@) + Seq::<DrawView>::empty() =~= drawn(out@));
            }
        }
        put(&mut out, Draw::Paint(Ink::Body));
        assert(drawn(out@) =~= self.footer_draws(all));
        out
    }

    /// The hint for the display screen, where View leads there at all.
    pub open spec fn display_hint(self) -> Seq<HintView> {
        if self.turnable {
            seq![hint_view("View"@, "configure display"@)]
        } else {
            Seq::empty()
        }
    }

    /// Append the hint for the display screen, where View leads there at
    /// all.
    ///
    /// On the firmware's own text console the orientation and the font
    /// belong to the firmware, and a footer must not offer what View will
    /// not do.
    pub(crate) fn add_display_hint(&self, out: &mut Vec<Hint<'static>>)
        ensures
            hints_of(final(out)@) == hints_of(old(out)@) + self.display_hint(),
    {
        if self.turnable {
            add_hint(out, "View", "configure display");
        }
        assert(hints_of(out@) =~= hints_of(old(out)@) + self.display_hint());
    }
}


/// No two keys that mean something different are taken for one another: the
/// arrows move, Enter chooses, Escape goes back, Tab is the View button, and
/// no other key does anything.
pub proof fn every_key_means_one_thing(code: u16, c: char)
    ensures
        meaning(Key::Special(code)) == Some(Input::Up) <==> code == 0x01,
        meaning(Key::Special(code)) == Some(Input::Down) <==> code == 0x02,
        meaning(Key::Special(code)) == Some(Input::Right) <==> code == 0x03,
        meaning(Key::Special(code)) == Some(Input::Left) <==> code == 0x04,
        meaning(Key::Special(code)) == Some(Input::Cancel) <==> code == 0x17,
        meaning(Key::Special(code)) != Some(Input::Select),
        meaning(Key::Special(code)) != Some(Input::View),
        meaning(Key::Printable(c)) == Some(Input::Select) <==> c == '\r' || c == '\n',
        meaning(Key::Printable(c)) == Some(Input::View) <==> c == '\t',
        meaning(Key::Printable(c)) is Some ==> c == '\r' || c == '\n' || c == '\t',
{
}

/// Text that fits is shown as it is, control characters aside, and text that
/// does not keeps its beginning.
pub proof fn text_that_fits_is_shown(text: Seq<char>, columns: int, i: int)
    requires
        0 <= i < fitted(text, columns).len(),
        !is_control(text[i]),
    ensures
        text.len() <= columns - 1 ==> fitted(text, columns).len() == text.len() && fitted(
            text,
            columns,
        )[i] == text[i],
        text.len() > columns - 1 && columns >= 9 ==> fitted(text, columns).len() == columns - 1 && (i
            < columns - 2 ==> fitted(text, columns)[i] == text[i]),
{
}

/// Every line handed over is drawn, in its style and in order.
pub proof fn every_line_is_drawn(lines: Seq<LineView>, n: nat, cols: int, i: int)
    requires
        0 <= i < n <= lines.len(),
    ensures
        exists|at: int|
            0 <= at < lines_draws(lines, n, cols).len() && #[trigger] lines_draws(
                lines,
                n,
                cols,
            )[at] == DrawView::Row(fitted(lines[i].text, cols)) && (lines[i].style != Style::Normal
                ==> at > 0 && lines_draws(lines, n, cols)[at - 1] == DrawView::Paint(
                ink(lines[i].style),
            )),
    decreases n,
{
    let before = lines_draws(lines, (n - 1) as nat, cols);
    let all = lines_draws(lines, n, cols);
    if i < n - 1 {
        every_line_is_drawn(lines, (n - 1) as nat, cols, i);
        let at = choose|at: int|
            0 <= at < before.len() && #[trigger] before[at] == DrawView::Row(
                fitted(lines[i].text, cols),
            ) && (lines[i].style != Style::Normal ==> at > 0 && before[at - 1] == DrawView::Paint(
                ink(lines[i].style),
            ));
        assert(all[at] == before[at]);
        if at > 0 {
            assert(all[at - 1] == before[at - 1]);
        }
    } else {
        let here = styled_draws(lines[i], cols);
        if lines[i].style == Style::Normal {
            assert(all[before.len() as int] == here[0]);
        } else {
            assert(all[before.len() as int] == here[0]);
            assert(all[before.len() + 1int] == here[1]);
        }
    }
}

} // verus!
