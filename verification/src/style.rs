//! Line styling, decided where the text is written rather than where it is
//! painted.
//!
//! The report writers know what a line *means*: this is a defect, this is
//! a caption, this is the value you must actually read before authorising
//! a write. The screen only knows what colour to make things. Keeping the
//! meaning next to the text means the painter never has to guess by matching
//! on substrings, which would silently stop working the first time someone
//! rewords a message.
//!
//! [`Style`] is deliberately semantic, not a palette. `Bad` means "this is
//! damage", not "red".

use crate::text::{from_chars, to_chars};
use vstd::prelude::*;

verus! {

#[derive(Clone, Copy, PartialEq, Eq, Structural, Debug, Default)]
pub enum Style {
    /// Body text.
    #[default]
    Normal,
    /// A caption introducing a block.
    Title,
    /// Chrome: column headings, provenance, things you read only if you
    /// are looking for them.
    Dim,
    /// Healthy, verified, succeeded.
    Good,
    /// Needs attention, or a caveat worth reading before continuing.
    Warn,
    /// Damage, refusal, failure.
    Bad,
    /// A value the operator must actually take in: an LBA about to be
    /// overwritten, the change being proposed.
    Key,
}

#[derive(Clone, Debug)]
pub struct Line {
    pub text: String,
    pub style: Style,
}

/// What a line says and means, as a value specifications can compare.
pub struct LineView {
    pub text: Seq<char>,
    pub style: Style,
}

impl View for Line {
    type V = LineView;

    open spec fn view(&self) -> LineView {
        LineView { text: self.text@, style: self.style }
    }
}

/// The line that says `text` in `style`.
pub open spec fn styled(text: Seq<char>, style: Style) -> LineView {
    LineView { text, style }
}

/// The empty line.
pub open spec fn blank_line() -> LineView {
    LineView { text: Seq::empty(), style: Style::Normal }
}

/// A list of lines, as values.
pub open spec fn shown(lines: Seq<Line>) -> Seq<LineView> {
    Seq::new(lines.len(), |i: int| lines[i]@)
}

/// Text a line can be made of, owned or borrowed.
pub trait Text: Sized {
    spec fn content(&self) -> Seq<char>;

    fn into_string(self) -> (r: String)
        ensures
            r@ == self.content(),
    ;
}

impl Text for String {
    open spec fn content(&self) -> Seq<char> {
        self@
    }

    fn into_string(self) -> (r: String) {
        self
    }
}

impl<'a> Text for &'a str {
    open spec fn content(&self) -> Seq<char> {
        self@
    }

    fn into_string(self) -> (r: String) {
        self.to_owned()
    }
}

impl Line {
    pub fn new<T: Text>(text: T, style: Style) -> (r: Self)
        ensures
            r@ == styled(text.content(), style),
    {
        Line { text: text.into_string(), style }
    }

    pub fn blank() -> (r: Self)
        ensures
            r@ == blank_line(),
    {
        Line { text: String::new(), style: Style::Normal }
    }

    /// A line of its own with the same text and style.
    pub(crate) fn copy(&self) -> (r: Self)
        ensures
            r@ == self@,
    {
        Line { text: self.text.clone(), style: self.style }
    }
}

pub fn line<T: Text>(text: T) -> (r: Line)
    ensures
        r@ == styled(text.content(), Style::Normal),
{
    Line::new(text, Style::Normal)
}

pub fn title<T: Text>(text: T) -> (r: Line)
    ensures
        r@ == styled(text.content(), Style::Title),
{
    Line::new(text, Style::Title)
}

pub fn dim<T: Text>(text: T) -> (r: Line)
    ensures
        r@ == styled(text.content(), Style::Dim),
{
    Line::new(text, Style::Dim)
}

pub fn good<T: Text>(text: T) -> (r: Line)
    ensures
        r@ == styled(text.content(), Style::Good),
{
    Line::new(text, Style::Good)
}

pub fn warn<T: Text>(text: T) -> (r: Line)
    ensures
        r@ == styled(text.content(), Style::Warn),
{
    Line::new(text, Style::Warn)
}

pub fn bad<T: Text>(text: T) -> (r: Line)
    ensures
        r@ == styled(text.content(), Style::Bad),
{
    Line::new(text, Style::Bad)
}

pub fn key<T: Text>(text: T) -> (r: Line)
    ensures
        r@ == styled(text.content(), Style::Key),
{
    Line::new(text, Style::Key)
}

/// The texts of `lines`, newline-separated.
pub open spec fn plain_text(lines: Seq<LineView>) -> Seq<char>
    decreases lines.len(),
{
    if lines.len() == 0 {
        Seq::empty()
    } else if lines.len() == 1 {
        lines[0].text
    } else {
        plain_text(lines.drop_last()).push('\n') + lines.last().text
    }
}

/// Every line's text, newline-separated. For tests and host tooling.
pub fn plain(lines: &[Line]) -> (r: String)
    ensures
        r@ == plain_text(shown(lines@)),
{
    let mut out = String::new();
    let mut i: usize = 0;
    while i < lines.len()
        invariant
            i <= lines.len(),
            out@ == plain_text(shown(lines@.take(i as int))),
        decreases lines.len() - i,
    {
        let ghost before = shown(lines@.take(i as int));
        let ghost after = shown(lines@.take(i + 1));
        assert(after.drop_last() =~= before);
        assert(after.last() == lines@[i as int]@);
        if i > 0 {
            out.push('\n');
        }
        out.push_str(lines[i].text.as_str());
        i += 1;
        assert(out@ =~= plain_text(after));
    }
    assert(lines@.take(i as int) =~= lines@);
    out
}

/// The lines `texts` make in one style.
pub open spec fn block_lines(style: Style, texts: Seq<&str>) -> Seq<LineView> {
    Seq::new(texts.len(), |i: int| styled(texts[i]@, style))
}

/// Push several lines of the same style.
pub fn block(out: &mut Vec<Line>, style: Style, texts: &[&str])
    ensures
        shown(final(out)@) == shown(old(out)@) + block_lines(style, texts@),
{
    let mut i: usize = 0;
    while i < texts.len()
        invariant
            i <= texts.len(),
            shown(out@) == shown(old(out)@) + block_lines(style, texts@.take(i as int)),
        decreases texts.len() - i,
    {
        add_line(out, Line::new(texts[i], style));
        i += 1;
        assert(block_lines(style, texts@.take(i as int)) =~= block_lines(
            style,
            texts@.take(i - 1),
        ).push(styled(texts@[i - 1]@, style)));
    }
    assert(texts@.take(i as int) =~= texts@);
}

// ----------------------------------------------------------------- wrapping

/// The lines after the first of a text broken at `room` characters, each
/// behind `hang`.
pub open spec fn hung_lines(text: Seq<char>, room: nat, style: Style, hang: Seq<char>) -> Seq<
    LineView,
>
    decreases text.len(),
{
    if text.len() == 0 {
        Seq::empty()
    } else if room == 0 || text.len() <= room {
        seq![styled(hang + text, style)]
    } else {
        seq![styled(hang + text.take(room as int), style)] + hung_lines(
            text.skip(room as int),
            room,
            style,
            hang,
        )
    }
}

/// At least one, whatever is left of `width` behind `hang`.
pub open spec fn room_behind(width: nat, hang: nat) -> nat {
    if width > hang {
        (width - hang) as nat
    } else {
        1
    }
}

/// A long value broken across lines, the ones after the first behind
/// `hang`.
pub open spec fn wrapped_lines(text: Seq<char>, width: nat, style: Style, hang: Seq<char>) -> Seq<
    LineView,
> {
    let first = room_behind(width, 0);
    if text.len() <= first {
        seq![styled(text, style)]
    } else {
        seq![styled(text.take(first as int), style)] + hung_lines(
            text.skip(first as int),
            room_behind(width, hang.len()),
            style,
            hang,
        )
    }
}

/// Break a long value across lines instead of cutting it off.
///
/// The value is broken at exactly `width` characters: what is wrapped here
/// is device paths, which hold no space to break at.
pub fn wrap(text: &str, width: usize, style: Style, hang: &str) -> (r: Vec<Line>)
    ensures
        shown(r@) == wrapped_lines(text@, width as nat, style, hang@),
{
    let chars = to_chars(text);
    let ghost all = text@;
    let first: usize = if width > 0 {
        width
    } else {
        1
    };
    let mut out = no_lines();
    if chars.len() <= first {
        add_line(&mut out, Line::new(text, style));
        return out;
    }
    let hang_len: usize = hang.unicode_len();
    let room: usize = if width > hang_len {
        width - hang_len
    } else {
        1
    };
    assert(chars@.subrange(0, first as int) =~= all.take(first as int));
    add_line(&mut out, Line::new(from_chars(&chars.as_slice()[0..first]), style));
    let ghost head = shown(out@);
    let ghost rest = all.skip(first as int);
    let mut at: usize = first;
    assert(head =~= seq![styled(all.take(first as int), style)]);
    while at < chars.len()
        invariant
            first <= at <= chars@.len(),
            chars@ == all,
            room > 0,
            shown(out@) + hung_lines(all.skip(at as int), room as nat, style, hang@) == head
                + hung_lines(rest, room as nat, style, hang@),
        decreases chars@.len() - at,
    {
        let ghost left = all.skip(at as int);
        let ghost before = shown(out@);
        let end: usize = if chars.len() - at <= room {
            chars.len()
        } else {
            at + room
        };
        let mut s = hang.to_owned();
        s.push_str(from_chars(&chars.as_slice()[at..end]).as_str());
        let ghost l = styled(s@, style);
        add_line(&mut out, Line::new(s, style));
        proof {
            let tail = hung_lines(all.skip(end as int), room as nat, style, hang@);
            if left.len() <= room {
                assert(all.subrange(at as int, end as int) =~= left);
                assert(tail =~= Seq::<LineView>::empty());
                assert(before.push(l) + tail =~= before + seq![l]);
            } else {
                assert(all.subrange(at as int, end as int) =~= left.take(room as int));
                assert(all.skip(end as int) =~= left.skip(room as int));
                assert(before.push(l) + tail =~= before + (seq![l] + tail));
            }
        }
        at = end;
    }
    assert(shown(out@) + hung_lines(all.skip(at as int), room as nat, style, hang@) =~= shown(
        out@,
    ));
    out
}

proof fn hung_lines_fit(text: Seq<char>, room: nat, style: Style, hang: Seq<char>, i: int)
    requires
        room > 0,
        0 <= i < hung_lines(text, room, style, hang).len(),
    ensures
        hung_lines(text, room, style, hang)[i].text.len() <= hang.len() + room,
    decreases text.len(),
{
    if text.len() > room && i > 0 {
        hung_lines_fit(text.skip(room as int), room, style, hang, i - 1);
    }
}

/// No line of a wrapped value is longer than the width, provided there is
/// room behind the hang.
pub proof fn wrapped_lines_fit(text: Seq<char>, width: nat, style: Style, hang: Seq<char>, i: int)
    requires
        hang.len() < width,
        0 <= i < wrapped_lines(text, width, style, hang).len(),
    ensures
        wrapped_lines(text, width, style, hang)[i].text.len() <= width,
{
    if text.len() > width && i > 0 {
        hung_lines_fit(
            text.skip(width as int),
            room_behind(width, hang.len()),
            style,
            hang,
            i - 1,
        );
    }
}

/// What lines say, without the `hang` in front of all but the first.
pub open spec fn unhung(lines: Seq<LineView>, hang: nat) -> Seq<char>
    decreases lines.len(),
{
    if lines.len() == 0 {
        Seq::empty()
    } else if lines.len() == 1 {
        lines[0].text
    } else {
        unhung(lines.drop_last(), hang) + lines.last().text.skip(hang as int)
    }
}

proof fn unhung_with_hung(
    head: Seq<LineView>,
    text: Seq<char>,
    room: nat,
    style: Style,
    hang: Seq<char>,
)
    requires
        head.len() > 0,
        room > 0,
    ensures
        unhung(head + hung_lines(text, room, style, hang), hang.len()) == unhung(
            head,
            hang.len(),
        ) + text,
    decreases text.len(),
{
    let more = hung_lines(text, room, style, hang);
    let so_far = unhung(head, hang.len());
    if text.len() == 0 {
        assert(head + more =~= head);
        assert(so_far + text =~= so_far);
    } else if text.len() <= room {
        let l = styled(hang + text, style);
        assert((head + more).drop_last() =~= head);
        assert((head + more).last() == l);
        assert(l.text.skip(hang.len() as int) =~= text);
    } else {
        let part = text.take(room as int);
        let l = styled(hang + part, style);
        let tail = hung_lines(text.skip(room as int), room, style, hang);
        let next = head.push(l);
        assert(head + more =~= next + tail);
        unhung_with_hung(next, text.skip(room as int), room, style, hang);
        assert(next.drop_last() =~= head);
        assert(l.text.skip(hang.len() as int) =~= part);
        assert(so_far + part + text.skip(room as int) =~= so_far + text);
    }
}

/// Nothing of a value is lost by wrapping it.
pub proof fn wrapping_loses_nothing(text: Seq<char>, width: nat, style: Style, hang: Seq<char>)
    ensures
        unhung(wrapped_lines(text, width, style, hang), hang.len()) == text,
{
    let first = room_behind(width, 0);
    if text.len() > first {
        let head = seq![styled(text.take(first as int), style)];
        unhung_with_hung(
            head,
            text.skip(first as int),
            room_behind(width, hang.len()),
            style,
            hang,
        );
        assert(text.take(first as int) + text.skip(first as int) =~= text);
    }
}

// ------------------------------------------------------------------- lists

/// Append one line.
pub(crate) fn add_line(out: &mut Vec<Line>, line: Line)
    ensures
        shown(final(out)@) == shown(old(out)@).push(line@),
{
    out.push(line);
    assert(shown(out@) =~= shown(old(out)@).push(line@));
}

/// Append the lines of `more`.
pub(crate) fn add_lines(out: &mut Vec<Line>, more: Vec<Line>)
    ensures
        shown(final(out)@) == shown(old(out)@) + shown(more@),
{
    let ghost added = more@;
    let mut rest = more;
    out.append(&mut rest);
    assert(shown(out@) =~= shown(old(out)@) + shown(added));
}

/// A list with no lines in it.
pub(crate) fn no_lines() -> (r: Vec<Line>)
    ensures
        shown(r@) == Seq::<LineView>::empty(),
{
    let r: Vec<Line> = Vec::new();
    assert(shown(r@) =~= Seq::<LineView>::empty());
    r
}

/// A line stands in two lists put together exactly if it stands in one.
pub(crate) proof fn in_either(a: Seq<LineView>, b: Seq<LineView>, x: LineView)
    ensures
        (a + b).contains(x) <==> a.contains(x) || b.contains(x),
{
    let all = a + b;
    if a.contains(x) {
        let i = choose|i: int| 0 <= i < a.len() && a[i] == x;
        assert(all[i] == x);
    }
    if b.contains(x) {
        let i = choose|i: int| 0 <= i < b.len() && b[i] == x;
        assert(all[a.len() + i] == x);
    }
    if all.contains(x) {
        let i = choose|i: int| 0 <= i < all.len() && all[i] == x;
        if i < a.len() {
            assert(a[i] == x);
        } else {
            assert(b[i - a.len()] == x);
        }
    }
}

/// A line stands in a list with one more exactly if it did before or is that
/// one.
pub(crate) proof fn in_pushed(a: Seq<LineView>, y: LineView, x: LineView)
    ensures
        a.push(y).contains(x) <==> a.contains(x) || x == y,
{
    assert(a.push(y) =~= a + seq![y]);
    in_either(a, seq![y], x);
    assert(seq![y][0] == y);
}

} // verus!
