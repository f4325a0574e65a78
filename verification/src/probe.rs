//! What the hardware actually sends: counting it, and saying so.
//!
//! A Steam Deck has no built-in keyboard, so what a rescue tool can use
//! depends on how the firmware exposes the buttons, sticks, trackpads and
//! touchscreen, and that is not something to guess at. The probe walks a
//! scripted list of controls, one at a time, and attributes whatever arrives
//! to the control it just asked for.
//!
//! Pointer and touch samples are summarised per step rather than logged
//! individually: a trackpad emits hundreds of events per second and buries
//! everything else.

use crate::text::{dec, dec_text, hex, hex_min, hex_min_text, hex_text, strings_of};
use vstd::prelude::*;

verus! {

/// `n` in decimal, with its sign.
pub open spec fn signed(n: int) -> Seq<char> {
    if n < 0 {
        "-"@ + dec((-n) as nat)
    } else {
        dec(n as nat)
    }
}

fn signed_text(n: i64) -> (r: String)
    ensures
        r@ == signed(n as int),
{
    if n < 0 {
        let mut s = "-".to_owned();
        let size: u64 = (-(n as i128)) as u64;
        s.push_str(dec_text(size).as_str());
        s
    } else {
        dec_text(n as u64)
    }
}

/// The values seen of something, from the lowest to the highest.
#[derive(Clone, Copy, PartialEq, Eq, Structural, Debug)]
pub struct Range {
    pub seen: bool,
    pub min: i64,
    pub max: i64,
}

impl Range {
    /// Nothing seen yet.
    pub open spec fn none() -> Range {
        Range { seen: false, min: 0, max: 0 }
    }

    /// One more value seen.
    pub open spec fn with(self, v: i64) -> Range {
        if !self.seen {
            Range { seen: true, min: v, max: v }
        } else {
            Range {
                seen: true,
                min: if v < self.min {
                    v
                } else {
                    self.min
                },
                max: if v > self.max {
                    v
                } else {
                    self.max
                },
            }
        }
    }

    pub fn new() -> (r: Self)
        ensures
            r == Range::none(),
    {
        Range { seen: false, min: 0, max: 0 }
    }

    /// Take in one more value.
    pub fn add(&mut self, v: i64)
        ensures
            *final(self) == old(self).with(v),
    {
        if !self.seen {
            self.seen = true;
            self.min = v;
            self.max = v;
        } else {
            if v < self.min {
                self.min = v;
            }
            if v > self.max {
                self.max = v;
            }
        }
    }

    /// The range as it is logged.
    pub open spec fn text(self) -> Seq<char> {
        if self.seen {
            signed(self.min as int) + ".."@ + signed(self.max as int)
        } else {
            "-"@
        }
    }

    pub fn show(&self) -> (r: String)
        ensures
            r@ == self.text(),
    {
        if self.seen {
            let mut s = signed_text(self.min);
            s.push_str("..");
            s.push_str(signed_text(self.max).as_str());
            s
        } else {
            "-".to_owned()
        }
    }
}

/// A range covers every value it was given, and its ends were among them.
pub proof fn a_range_covers_what_it_saw(r: Range, v: i64)
    requires
        r.seen ==> r.min <= r.max,
    ensures
        r.with(v).seen,
        r.with(v).min <= v <= r.with(v).max,
        r.seen ==> r.with(v).min <= r.min && r.max <= r.with(v).max,
        r.with(v).min == v || r.with(v).min == r.min,
        r.with(v).max == v || r.with(v).max == r.max,
{
}

// ------------------------------------------------------------------- counts

/// Where a code is counted among those from `i` on.
pub open spec fn place_of(list: Seq<(u16, u32)>, code: u16, i: int) -> int
    decreases list.len() - i,
{
    if i < 0 || i >= list.len() || list[i].0 == code {
        i
    } else {
        place_of(list, code, i + 1)
    }
}

/// One more of a code: counted where it already is, or at the end.
pub open spec fn bumped(list: Seq<(u16, u32)>, code: u16) -> Seq<(u16, u32)> {
    let at = place_of(list, code, 0);
    if at < list.len() {
        list.update(at, (code, (list[at].1 + 1) as u32))
    } else {
        list.push((code, 1))
    }
}

/// Count one more of a code.
pub fn bump(list: &mut Vec<(u16, u32)>, code: u16)
    requires
        forall|i: int| 0 <= i < old(list)@.len() ==> (#[trigger] old(list)@[i]).1 < u32::MAX,
    ensures
        final(list)@ == bumped(old(list)@, code),
{
    let mut i: usize = 0;
    while i < list.len()
        invariant
            i <= list@.len(),
            list@ == old(list)@,
            forall|j: int| 0 <= j < list@.len() ==> (#[trigger] list@[j]).1 < u32::MAX,
            place_of(list@, code, 0) == place_of(list@, code, i as int),
        decreases list@.len() - i,
    {
        if list[i].0 == code {
            let n: u32 = list[i].1 + 1;
            list.set(i, (code, n));
            return;
        }
        i += 1;
    }
    list.push((code, 1));
}

/// The name of a scan code.
pub open spec fn scan_label(code: u16) -> Seq<char> {
    if code == 0x01 {
        "UP"@
    } else if code == 0x02 {
        "DOWN"@
    } else if code == 0x03 {
        "RIGHT"@
    } else if code == 0x04 {
        "LEFT"@
    } else if code == 0x05 {
        "HOME"@
    } else if code == 0x06 {
        "END"@
    } else if code == 0x07 {
        "INSERT"@
    } else if code == 0x08 {
        "DELETE"@
    } else if code == 0x09 {
        "PAGE_UP"@
    } else if code == 0x0a {
        "PAGE_DOWN"@
    } else if 0x0b <= code <= 0x16 {
        "F-key"@
    } else if code == 0x17 {
        "ESCAPE"@
    } else {
        "?"@
    }
}

/// The name of a scan code.
pub fn scan_name(code: u16) -> (r: &'static str)
    ensures
        r@ == scan_label(code),
{
    match code {
        0x01 => "UP",
        0x02 => "DOWN",
        0x03 => "RIGHT",
        0x04 => "LEFT",
        0x05 => "HOME",
        0x06 => "END",
        0x07 => "INSERT",
        0x08 => "DELETE",
        0x09 => "PAGE_UP",
        0x0a => "PAGE_DOWN",
        0x0b..=0x16 => "F-key",
        0x17 => "ESCAPE",
        _ => "?",
    }
}

/// What a character that is not one is called.
pub open spec fn unicode_label(code: u16) -> Seq<char> {
    if code == 0x0d {
        " (CR)"@
    } else if code == 0x0a {
        " (LF)"@
    } else if code == 0x09 {
        " (TAB)"@
    } else if code == 0x08 {
        " (BACKSPACE)"@
    } else if code == 0x20 {
        " (SPACE)"@
    } else {
        ""@
    }
}

fn unicode_name(code: u16) -> (r: &'static str)
    ensures
        r@ == unicode_label(code),
{
    match code {
        0x0d => " (CR)",
        0x0a => " (LF)",
        0x09 => " (TAB)",
        0x08 => " (BACKSPACE)",
        0x20 => " (SPACE)",
        _ => "",
    }
}

// -------------------------------------------------------------------- tally

/// What one relative pointer sent during one step.
#[derive(Clone, Copy, PartialEq, Eq, Structural, Debug)]
pub struct PointerTally {
    pub events: u32,
    pub x: Range,
    pub y: Range,
    pub z: Range,
    pub left: bool,
    pub right: bool,
}

/// What one touchscreen sent during one step.
#[derive(Clone, Copy, PartialEq, Eq, Structural, Debug)]
pub struct TouchTally {
    pub events: u32,
    pub x: Range,
    pub y: Range,
    pub z: Range,
    pub buttons: u32,
}

impl PointerTally {
    pub fn new() -> (r: Self)
        ensures
            r == (PointerTally {
                events: 0,
                x: Range::none(),
                y: Range::none(),
                z: Range::none(),
                left: false,
                right: false,
            }),
    {
        PointerTally {
            events: 0,
            x: Range::new(),
            y: Range::new(),
            z: Range::new(),
            left: false,
            right: false,
        }
    }

    /// Count one sample.
    pub fn add(&mut self, x: i64, y: i64, z: i64, left: bool, right: bool)
        requires
            old(self).events < u32::MAX,
        ensures
            *final(self) == (PointerTally {
                events: (old(self).events + 1) as u32,
                x: old(self).x.with(x),
                y: old(self).y.with(y),
                z: old(self).z.with(z),
                left: old(self).left || left,
                right: old(self).right || right,
            }),
    {
        self.events = self.events + 1;
        self.x.add(x);
        self.y.add(y);
        self.z.add(z);
        self.left = self.left || left;
        self.right = self.right || right;
    }
}

impl TouchTally {
    pub fn new() -> (r: Self)
        ensures
            r == (TouchTally {
                events: 0,
                x: Range::none(),
                y: Range::none(),
                z: Range::none(),
                buttons: 0,
            }),
    {
        TouchTally { events: 0, x: Range::new(), y: Range::new(), z: Range::new(), buttons: 0 }
    }

    /// Count one sample.
    pub fn add(&mut self, x: i64, y: i64, z: i64, buttons: u32)
        requires
            old(self).events < u32::MAX,
        ensures
            *final(self) == (TouchTally {
                events: (old(self).events + 1) as u32,
                x: old(self).x.with(x),
                y: old(self).y.with(y),
                z: old(self).z.with(z),
                buttons: old(self).buttons | buttons,
            }),
    {
        self.events = self.events + 1;
        self.x.add(x);
        self.y.add(y);
        self.z.add(z);
        self.buttons = self.buttons | buttons;
    }
}

/// What arrived during one step.
pub struct Tally {
    pub unicode: Vec<(u16, u32)>,
    pub scan: Vec<(u16, u32)>,
    pub pointers: Vec<PointerTally>,
    pub touches: Vec<TouchTally>,
}

/// The line of one character.
pub open spec fn unicode_line(c: (u16, u32)) -> Seq<char> {
    "    KEY unicode=0x"@ + hex(c.0 as nat, 4, false) + unicode_label(c.0) + " x"@ + dec(
        c.1 as nat,
    )
}

/// The line of one scan code.
pub open spec fn scan_line(c: (u16, u32)) -> Seq<char> {
    "    KEY scan=0x"@ + hex(c.0 as nat, 4, false) + " "@ + scan_label(c.0) + " x"@ + dec(
        c.1 as nat,
    )
}

/// `true` or `false`.
pub open spec fn truth(b: bool) -> Seq<char> {
    if b {
        "true"@
    } else {
        "false"@
    }
}

/// The line of one pointer.
pub open spec fn pointer_line(i: int, p: PointerTally) -> Seq<char> {
    "    PTR"@ + dec(i as nat) + " events="@ + dec(p.events as nat) + " dx="@ + p.x.text()
        + " dy="@ + p.y.text() + " dz="@ + p.z.text() + " left="@ + truth(p.left) + " right="@
        + truth(p.right)
}

/// The line of one touchscreen.
pub open spec fn touch_line(i: int, t: TouchTally) -> Seq<char> {
    "    TOUCH"@ + dec(i as nat) + " events="@ + dec(t.events as nat) + " x="@ + t.x.text()
        + " y="@ + t.y.text() + " z="@ + t.z.text() + " buttons=0x"@ + hex_min(t.buttons as nat)
}

/// The lines of the first `n` pointers that sent anything.
pub open spec fn pointer_lines(list: Seq<PointerTally>, n: nat) -> Seq<Seq<char>>
    decreases n,
{
    if n == 0 {
        Seq::empty()
    } else {
        let before = pointer_lines(list, (n - 1) as nat);
        if list[n - 1].events > 0 {
            before.push(pointer_line(n - 1, list[n - 1]))
        } else {
            before
        }
    }
}

/// The lines of the first `n` touchscreens that sent anything.
pub open spec fn touch_lines(list: Seq<TouchTally>, n: nat) -> Seq<Seq<char>>
    decreases n,
{
    if n == 0 {
        Seq::empty()
    } else {
        let before = touch_lines(list, (n - 1) as nat);
        if list[n - 1].events > 0 {
            before.push(touch_line(n - 1, list[n - 1]))
        } else {
            before
        }
    }
}

impl Tally {
    /// The lines of a step in which something arrived.
    pub open spec fn arrivals(self) -> Seq<Seq<char>> {
        Seq::new(self.unicode@.len(), |i: int| unicode_line(self.unicode@[i])) + Seq::new(
            self.scan@.len(),
            |i: int| scan_line(self.scan@[i]),
        ) + pointer_lines(self.pointers@, self.pointers@.len()) + touch_lines(
            self.touches@,
            self.touches@.len(),
        )
    }

    /// The lines a step is logged as.
    pub open spec fn lines(self) -> Seq<Seq<char>> {
        if self.arrivals().len() == 0 {
            seq!["    (nothing)"@]
        } else {
            self.arrivals()
        }
    }

    pub fn new(pointers: usize, touches: usize) -> (r: Self)
        ensures
            r.unicode@.len() == 0,
            r.scan@.len() == 0,
            r.pointers@.len() == pointers,
            r.touches@.len() == touches,
            forall|i: int|
                0 <= i < pointers ==> #[trigger] r.pointers@[i] == (PointerTally {
                    events: 0,
                    x: Range::none(),
                    y: Range::none(),
                    z: Range::none(),
                    left: false,
                    right: false,
                }),
            forall|i: int|
                0 <= i < touches ==> #[trigger] r.touches@[i] == (TouchTally {
                    events: 0,
                    x: Range::none(),
                    y: Range::none(),
                    z: Range::none(),
                    buttons: 0,
                }),
    {
        let mut t = Tally {
            unicode: Vec::new(),
            scan: Vec::new(),
            pointers: Vec::new(),
            touches: Vec::new(),
        };
        let mut i: usize = 0;
        while i < pointers
            invariant
                i <= pointers,
                t.pointers@.len() == i,
                t.unicode@.len() == 0,
                t.scan@.len() == 0,
                t.touches@.len() == 0,
                forall|j: int|
                    0 <= j < i ==> #[trigger] t.pointers@[j] == (PointerTally {
                        events: 0,
                        x: Range::none(),
                        y: Range::none(),
                        z: Range::none(),
                        left: false,
                        right: false,
                    }),
            decreases pointers - i,
        {
            t.pointers.push(PointerTally::new());
            i += 1;
        }
        let mut i: usize = 0;
        while i < touches
            invariant
                i <= touches,
                t.touches@.len() == i,
                t.unicode@.len() == 0,
                t.scan@.len() == 0,
                t.pointers@.len() == pointers,
                forall|j: int|
                    0 <= j < pointers ==> #[trigger] t.pointers@[j] == (PointerTally {
                        events: 0,
                        x: Range::none(),
                        y: Range::none(),
                        z: Range::none(),
                        left: false,
                        right: false,
                    }),
                forall|j: int|
                    0 <= j < i ==> #[trigger] t.touches@[j] == (TouchTally {
                        events: 0,
                        x: Range::none(),
                        y: Range::none(),
                        z: Range::none(),
                        buttons: 0,
                    }),
            decreases touches - i,
        {
            t.touches.push(TouchTally::new());
            i += 1;
        }
        t
    }

    /// What arrived, one line per source.
    pub fn summary(&self) -> (r: Vec<String>)
        ensures
            strings_of(r@) == self.lines(),
    {
        let mut out = key_texts(self);
        let ghost keys = strings_of(out@);
        let mut i: usize = 0;
        assert(strings_of(out@) =~= keys + pointer_lines(self.pointers@, 0));
        while i < self.pointers.len()
            invariant
                i <= self.pointers@.len(),
                strings_of(out@) == keys + pointer_lines(self.pointers@, i as nat),
            decreases self.pointers@.len() - i,
        {
            if self.pointers[i].events > 0 {
                add_text(&mut out, pointer_text(i, &self.pointers[i]));
            }
            i += 1;
            assert(strings_of(out@) =~= keys + pointer_lines(self.pointers@, i as nat));
        }
        let ghost pointers = strings_of(out@);
        let mut i: usize = 0;
        assert(strings_of(out@) =~= pointers + touch_lines(self.touches@, 0));
        while i < self.touches.len()
            invariant
                i <= self.touches@.len(),
                strings_of(out@) == pointers + touch_lines(self.touches@, i as nat),
            decreases self.touches@.len() - i,
        {
            if self.touches[i].events > 0 {
                add_text(&mut out, touch_text(i, &self.touches[i]));
            }
            i += 1;
            assert(strings_of(out@) =~= pointers + touch_lines(self.touches@, i as nat));
        }
        assert(strings_of(out@) == self.arrivals());
        assert(strings_of(out@).len() == out@.len());
        if out.len() == 0 {
            assert(strings_of(out@) =~= Seq::<Seq<char>>::empty());
            add_text(&mut out, "    (nothing)".to_owned());
        }
        out
    }
}

pub(crate) fn add_text(out: &mut Vec<String>, s: String)
    ensures
        strings_of(final(out)@) == strings_of(old(out)@).push(s@),
{
    let ghost text = s@;
    out.push(s);
    assert(strings_of(out@) =~= strings_of(old(out)@).push(text));
}

fn key_texts(t: &Tally) -> (r: Vec<String>)
    ensures
        strings_of(r@) == Seq::new(t.unicode@.len(), |i: int| unicode_line(t.unicode@[i]))
            + Seq::new(t.scan@.len(), |i: int| scan_line(t.scan@[i])),
{
    let mut out: Vec<String> = Vec::new();
    let ghost first = Seq::new(t.unicode@.len(), |i: int| unicode_line(t.unicode@[i]));
    let ghost second = Seq::new(t.scan@.len(), |i: int| scan_line(t.scan@[i]));
    let mut i: usize = 0;
    assert(strings_of(out@) =~= first.take(0));
    while i < t.unicode.len()
        invariant
            i <= t.unicode@.len(),
            first == Seq::new(t.unicode@.len(), |i: int| unicode_line(t.unicode@[i])),
            strings_of(out@) == first.take(i as int),
        decreases t.unicode@.len() - i,
    {
        let (code, n): (u16, u32) = t.unicode[i];
        let mut s = "    KEY unicode=0x".to_owned();
        s.push_str(hex_text(code as u64, 4, false).as_str());
        s.push_str(unicode_name(code));
        s.push_str(" x");
        s.push_str(dec_text(n as u64).as_str());
        assert(s@ == unicode_line(t.unicode@[i as int]));
        add_text(&mut out, s);
        i += 1;
        assert(first.take(i as int) =~= first.take(i - 1).push(first[i - 1]));
    }
    assert(first.take(i as int) =~= first);
    let mut i: usize = 0;
    assert(strings_of(out@) =~= first + second.take(0));
    while i < t.scan.len()
        invariant
            i <= t.scan@.len(),
            second == Seq::new(t.scan@.len(), |i: int| scan_line(t.scan@[i])),
            strings_of(out@) == first + second.take(i as int),
        decreases t.scan@.len() - i,
    {
        let (code, n): (u16, u32) = t.scan[i];
        let mut s = "    KEY scan=0x".to_owned();
        s.push_str(hex_text(code as u64, 4, false).as_str());
        s.push_str(" ");
        s.push_str(scan_name(code));
        s.push_str(" x");
        s.push_str(dec_text(n as u64).as_str());
        assert(s@ == scan_line(t.scan@[i as int]));
        add_text(&mut out, s);
        i += 1;
        assert(second.take(i as int) =~= second.take(i - 1).push(second[i - 1]));
        assert(strings_of(out@) =~= first + second.take(i as int));
    }
    assert(second.take(i as int) =~= second);
    out
}

fn truth_text(b: bool) -> (r: &'static str)
    ensures
        r@ == truth(b),
{
    if b {
        "true"
    } else {
        "false"
    }
}

fn pointer_text(i: usize, p: &PointerTally) -> (r: String)
    ensures
        r@ == pointer_line(i as int, *p),
{
    let mut s = "    PTR".to_owned();
    s.push_str(dec_text(i as u64).as_str());
    s.push_str(" events=");
    s.push_str(dec_text(p.events as u64).as_str());
    s.push_str(" dx=");
    s.push_str(p.x.show().as_str());
    s.push_str(" dy=");
    s.push_str(p.y.show().as_str());
    s.push_str(" dz=");
    s.push_str(p.z.show().as_str());
    s.push_str(" left=");
    s.push_str(truth_text(p.left));
    s.push_str(" right=");
    s.push_str(truth_text(p.right));
    s
}

fn touch_text(i: usize, t: &TouchTally) -> (r: String)
    ensures
        r@ == touch_line(i as int, *t),
{
    let mut s = "    TOUCH".to_owned();
    s.push_str(dec_text(i as u64).as_str());
    s.push_str(" events=");
    s.push_str(dec_text(t.events as u64).as_str());
    s.push_str(" x=");
    s.push_str(t.x.show().as_str());
    s.push_str(" y=");
    s.push_str(t.y.show().as_str());
    s.push_str(" z=");
    s.push_str(t.z.show().as_str());
    s.push_str(" buttons=0x");
    s.push_str(hex_min_text(t.buttons as u64).as_str());
    s
}

/// The extent of a touchscreen, as it is logged.
pub open spec fn extent_text(x: (u64, u64), y: (u64, u64), z: (u64, u64), attrs: u32) -> Seq<char> {
    "x "@ + dec(x.0 as nat) + ".."@ + dec(x.1 as nat) + ", y "@ + dec(y.0 as nat) + ".."@ + dec(
        y.1 as nat,
    ) + ", z "@ + dec(z.0 as nat) + ".."@ + dec(z.1 as nat) + ", attrs 0x"@ + hex_min(
        attrs as nat,
    )
}

/// The extent of a touchscreen, as it is logged.
pub fn describe(x: (u64, u64), y: (u64, u64), z: (u64, u64), attrs: u32) -> (r: String)
    ensures
        r@ == extent_text(x, y, z, attrs),
{
    let mut s = "x ".to_owned();
    s.push_str(dec_text(x.0).as_str());
    s.push_str("..");
    s.push_str(dec_text(x.1).as_str());
    s.push_str(", y ");
    s.push_str(dec_text(y.0).as_str());
    s.push_str("..");
    s.push_str(dec_text(y.1).as_str());
    s.push_str(", z ");
    s.push_str(dec_text(z.0).as_str());
    s.push_str("..");
    s.push_str(dec_text(z.1).as_str());
    s.push_str(", attrs 0x");
    s.push_str(hex_min_text(attrs as u64).as_str());
    s
}


/// Counting a code counts that code once more and no other.
pub proof fn one_code_is_counted(list: Seq<(u16, u32)>, code: u16, i: int)
    requires
        forall|j: int| 0 <= j < list.len() ==> (#[trigger] list[j]).1 < u32::MAX,
        forall|j: int, k: int|
            0 <= j < k < list.len() ==> (#[trigger] list[j]).0 != (#[trigger] list[k]).0,
    ensures
        0 <= i < list.len() && list[i].0 == code ==> bumped(list, code).len() == list.len()
            && bumped(list, code)[i] == (code, (list[i].1 + 1) as u32),
        0 <= i < list.len() && list[i].0 != code ==> bumped(list, code)[i] == list[i],
        (forall|j: int| 0 <= j < list.len() ==> (#[trigger] list[j]).0 != code) ==> bumped(
            list,
            code,
        ) == list.push((code, 1u32)),
{
    place_is_first(list, code, 0);
}

proof fn place_is_first(list: Seq<(u16, u32)>, code: u16, from: int)
    requires
        0 <= from <= list.len(),
    ensures
        from <= place_of(list, code, from) <= list.len(),
        place_of(list, code, from) < list.len() ==> list[place_of(list, code, from)].0 == code,
        forall|j: int|
            from <= j < place_of(list, code, from) ==> (#[trigger] list[j]).0 != code,
    decreases list.len() - from,
{
    if from < list.len() && list[from].0 != code {
        place_is_first(list, code, from + 1);
    }
}

} // verus!
