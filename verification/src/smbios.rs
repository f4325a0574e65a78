//! The SMBIOS structure table, as bytes.
//!
//! What the machine says it *is*: manufacturer, model, board, BIOS version.
//! None of it is needed to repair a partition table, and all of it is the
//! first thing anybody helping asks for, which is exactly the kind of
//! question the diagnostic report exists to have answered before it is
//! asked.
//!
//! Only the byte format lives here. Finding the table means walking the
//! firmware's configuration table through a raw pointer; the application
//! does that and hands over the bytes.
//!
//! Every length in here comes out of the table itself, so nothing is
//! trusted: a structure whose declared length runs past the end of the
//! buffer ends the walk rather than reading whatever follows.

use crate::bytes::{le16, le32, le64, rd_u16, rd_u32, rd_u64};
use crate::diag::{field, field_line, field_value, value_line};
use crate::guid::{guid_text, hex_bytes, Guid};
use crate::names::{folds, same_fold};
use crate::style::{
    add_line, add_lines, blank_line, dim, no_lines, shown, styled, title, Line, LineView, Style,
};
use crate::text::{
    content_of, dec, dec_text, filled, filled_text, from_chars, hex, to_chars, trim, trimmed_end, trimmed_start,
};
use vstd::prelude::*;
use vstd::utf8::encode_utf8;

verus! {

/// The header every structure starts with: type, length, handle.
pub const HEADER: usize = 4;

/// The last structure in a table.
pub const TYPE_END_OF_TABLE: u8 = 127;

/// A refusal to walk a table forever.
///
/// Real tables hold a few dozen structures. The bound exists because the
/// walk is driven by lengths read out of the table.
pub const MAX_STRUCTURES: usize = 1024;

/// One SMBIOS structure: a fixed formatted area, then its strings.
pub struct Structure<'a> {
    pub kind: u8,
    pub handle: u16,
    /// The formatted area, including the four-byte header.
    pub formatted: &'a [u8],
    /// The string set: NUL-terminated strings, ended by an empty one.
    pub strings: &'a [u8],
}

/// A [`Structure`] as a value.
pub struct StructureView {
    pub kind: u8,
    pub handle: u16,
    pub formatted: Seq<u8>,
    pub strings: Seq<u8>,
}

impl<'a> View for Structure<'a> {
    type V = StructureView;

    open spec fn view(&self) -> StructureView {
        StructureView {
            kind: self.kind,
            handle: self.handle,
            formatted: self.formatted@,
            strings: self.strings@,
        }
    }
}

/// Structures as values.
pub open spec fn structures_of(v: Seq<Structure<'_>>) -> Seq<StructureView> {
    Seq::new(v.len(), |i: int| v[i]@)
}

// ------------------------------------------------------------------ strings

/// Where the first NUL at or after `i` is, or the end.
pub open spec fn nul_from(b: Seq<u8>, i: int) -> int
    decreases b.len() - i,
{
    if i < 0 || i >= b.len() || b[i] == 0 {
        i
    } else {
        nul_from(b, i + 1)
    }
}

/// The `k`-th of the NUL-separated parts of `b` from `start` on.
pub open spec fn part_from(b: Seq<u8>, start: int, k: nat) -> Option<Seq<u8>>
    decreases k,
{
    let end = nul_from(b, start);
    if k == 0 {
        Some(b.subrange(start, end))
    } else if end >= b.len() {
        None
    } else {
        part_from(b, end + 1, (k - 1) as nat)
    }
}

/// Every byte is printable ASCII.
pub open spec fn all_printable(b: Seq<u8>) -> bool {
    forall|i: int| 0 <= i < b.len() ==> 0x20 <= #[trigger] b[i] < 0x7F
}

/// The characters of ASCII bytes.
pub open spec fn ascii(b: Seq<u8>) -> Seq<char> {
    Seq::new(b.len(), |i: int| b[i] as char)
}

/// Printable ASCII only, trimmed, or nothing at all.
///
/// A byte outside printable ASCII means the field was not what we thought
/// it was, and a plausible-looking wrong answer in a report somebody is
/// about to act on is worse than no answer.
pub open spec fn printable_text(b: Seq<u8>) -> Seq<char> {
    if all_printable(b) {
        trimmed_end(trimmed_start(ascii(b)))
    } else {
        Seq::empty()
    }
}

fn find_nul(b: &[u8], start: usize) -> (r: usize)
    requires
        start <= b@.len(),
    ensures
        start <= r <= b@.len(),
        r == nul_from(b@, start as int),
{
    let mut i: usize = start;
    while i < b.len() && b[i] != 0
        invariant
            start <= i <= b@.len(),
            nul_from(b@, start as int) == nul_from(b@, i as int),
        decreases b@.len() - i,
    {
        i += 1;
    }
    i
}

/// The NUL-separated part number `k`.
fn part<'a>(b: &'a [u8], k: usize) -> (r: Option<&'a [u8]>)
    ensures
        match r {
            Some(text) => part_from(b@, 0, k as nat) == Some(text@),
            None => part_from(b@, 0, k as nat) is None,
        },
{
    let mut start: usize = 0;
    let mut left: usize = k;
    while left > 0
        invariant
            start <= b@.len(),
            part_from(b@, 0, k as nat) == part_from(b@, start as int, left as nat),
        decreases left,
    {
        let end: usize = find_nul(b, start);
        if end >= b.len() {
            return None;
        }
        start = end + 1;
        left -= 1;
    }
    let end: usize = find_nul(b, start);
    Some(&b[start..end])
}

fn printable(b: &[u8]) -> (r: String)
    ensures
        r@ == printable_text(b@),
{
    let mut text = String::new();
    let mut i: usize = 0;
    while i < b.len()
        invariant
            i <= b@.len(),
            forall|j: int| 0 <= j < i ==> 0x20 <= #[trigger] b@[j] < 0x7F,
            text@ == ascii(b@).take(i as int),
        decreases b@.len() - i,
    {
        if b[i] < 0x20 || b[i] >= 0x7F {
            assert(!(0x20 <= b@[i as int] < 0x7F));
            return String::new();
        }
        text.push(b[i] as char);
        i += 1;
        assert(ascii(b@).take(i as int) =~= ascii(b@).take(i - 1).push(ascii(b@)[i - 1]));
    }
    assert(ascii(b@).take(i as int) =~= ascii(b@));
    trim(text.as_str())
}

// --------------------------------------------------------------- structures

impl StructureView {
    /// A byte of the formatted area.
    pub open spec fn byte_at(self, offset: int) -> Option<u8> {
        if 0 <= offset < self.formatted.len() {
            Some(self.formatted[offset])
        } else {
            None
        }
    }

    /// Two bytes of the formatted area.
    pub open spec fn word_at(self, offset: int) -> Option<u16> {
        if 0 <= offset && offset + 2 <= self.formatted.len() {
            Some(le16(self.formatted, offset))
        } else {
            None
        }
    }

    /// The string the byte at `offset` refers to.
    pub open spec fn text_at(self, offset: int) -> Option<Seq<char>> {
        match self.byte_at(offset) {
            None => None,
            Some(index) => if index == 0 {
                None
            } else {
                match part_from(self.strings, 0, (index - 1) as nat) {
                    None => None,
                    Some(part) => {
                        let text = printable_text(part);
                        if text.len() > 0 {
                            Some(text)
                        } else {
                            None
                        }
                    },
                }
            },
        }
    }

    /// The sixteen bytes at `offset`.
    pub open spec fn sixteen_at(self, offset: int) -> Option<Seq<u8>> {
        if 0 <= offset && offset + 16 <= self.formatted.len() {
            Some(self.formatted.subrange(offset, offset + 16))
        } else {
            None
        }
    }
}

impl<'a> Structure<'a> {
    /// A byte of the formatted area, or `None` if this structure is too
    /// short to have one there.
    ///
    /// Short structures are normal, not damage: the fields were added to
    /// the specification over time, and an older firmware simply declares a
    /// shorter length. Every read goes through here so that reporting an
    /// older machine cannot read past its own structure.
    pub fn byte(&self, offset: usize) -> (r: Option<u8>)
        ensures
            r == self@.byte_at(offset as int),
    {
        if offset < self.formatted.len() {
            Some(self.formatted[offset])
        } else {
            None
        }
    }

    pub fn word(&self, offset: usize) -> (r: Option<u16>)
        ensures
            r == self@.word_at(offset as int),
    {
        if self.formatted.len() >= 2 && offset <= self.formatted.len() - 2 {
            Some(rd_u16(self.formatted, offset))
        } else {
            None
        }
    }

    /// The string the byte at `offset` refers to.
    ///
    /// String references are one-based indices into the set that follows
    /// the structure; zero means "not specified", which is a normal answer
    /// and not a missing field.
    pub fn string_at(&self, offset: usize) -> (r: Option<String>)
        ensures
            content_of(r) == self@.text_at(offset as int),
    {
        let index: u8 = match self.byte(offset) {
            Some(index) => index,
            None => return None,
        };
        if index == 0 {
            return None;
        }
        match part(self.strings, (index - 1) as usize) {
            None => None,
            Some(bytes) => {
                let text = printable(bytes);
                if text.as_str().unicode_len() == 0 {
                    None
                } else {
                    Some(text)
                }
            },
        }
    }

    /// Sixteen bytes read as a GUID.
    ///
    /// SMBIOS stores a UUID with its first three fields little-endian, the
    /// same mixed-endian layout a GPT uses, so [`Guid`]'s own rendering is
    /// the correct one and no byte-swapping belongs here.
    pub fn guid_at(&self, offset: usize) -> (r: Option<Guid>)
        ensures
            match r {
                Some(g) => self@.sixteen_at(offset as int) == Some(g.0@),
                None => self@.sixteen_at(offset as int) is None,
            },
    {
        Guid::read_from(self.formatted, offset)
    }
}

/// Where the first two NULs in a row at or after `i` are.
pub open spec fn double_nul(b: Seq<u8>, i: int) -> Option<int>
    decreases b.len() - i,
{
    if i < 0 || i + 1 >= b.len() {
        None
    } else if b[i] == 0 && b[i + 1] == 0 {
        Some(i)
    } else {
        double_nul(b, i + 1)
    }
}

/// The structure at `at`, and where the next one starts, if a whole one is
/// there.
pub open spec fn structure_at(b: Seq<u8>, at: int) -> Option<(StructureView, int)> {
    let area = at + b[at + 1];
    if at + HEADER > b.len() || b[at + 1] < HEADER || area > b.len() {
        None
    } else {
        match double_nul(b, area) {
            None => None,
            Some(end) => Some(
                (
                    StructureView {
                        kind: b[at],
                        handle: le16(b, at + 2),
                        formatted: b.subrange(at, area),
                        strings: b.subrange(area, end + 2),
                    },
                    end + 2,
                ),
            ),
        }
    }
}

/// At most `n` structures from `at` on, up to the end of the table or the
/// first that is not all there.
pub open spec fn structures_from(b: Seq<u8>, at: int, n: nat) -> Seq<StructureView>
    decreases n,
{
    if n == 0 {
        Seq::empty()
    } else {
        match structure_at(b, at) {
            None => Seq::empty(),
            Some((s, next)) => if s.kind == TYPE_END_OF_TABLE {
                seq![s]
            } else {
                seq![s] + structures_from(b, next, (n - 1) as nat)
            },
        }
    }
}

fn find_double_nul(b: &[u8], start: usize) -> (r: Option<usize>)
    requires
        start <= b@.len(),
    ensures
        match r {
            Some(i) => double_nul(b@, start as int) == Some(i as int) && start <= i && i + 2
                <= b@.len(),
            None => double_nul(b@, start as int) is None,
        },
{
    let mut i: usize = start;
    while b.len() - i >= 2
        invariant
            start <= i <= b@.len(),
            double_nul(b@, start as int) == double_nul(b@, i as int),
        decreases b@.len() - i,
    {
        if b[i] == 0 && b[i + 1] == 0 {
            return Some(i);
        }
        i += 1;
    }
    None
}

/// Walk the structure table.
///
/// Stops at the end-of-table structure, at the end of the buffer, or at the
/// first structure that does not fit in what is left, in every case
/// returning what was read so far rather than nothing. A table truncated by
/// a firmware bug still names the machine in its first structure.
pub fn structures<'a>(bytes: &'a [u8]) -> (r: Vec<Structure<'a>>)
    ensures
        structures_of(r@) == structures_from(bytes@, 0, MAX_STRUCTURES as nat),
{
    let mut out: Vec<Structure<'a>> = Vec::new();
    let mut at: usize = 0;
    let mut left: usize = MAX_STRUCTURES;
    assert(structures_of(out@) =~= Seq::<StructureView>::empty());
    assert(Seq::<StructureView>::empty() + structures_from(bytes@, 0, MAX_STRUCTURES as nat)
        =~= structures_from(bytes@, 0, MAX_STRUCTURES as nat));
    while left > 0
        invariant
            at <= bytes@.len(),
            left <= MAX_STRUCTURES,
            structures_of(out@) + structures_from(bytes@, at as int, left as nat)
                == structures_from(bytes@, 0, MAX_STRUCTURES as nat),
        decreases left,
    {
        let ghost done = structures_of(out@);
        assert(done + Seq::<StructureView>::empty() =~= done);
        if bytes.len() - at < HEADER {
            return out;
        }
        let length: usize = bytes[at + 1] as usize;
        if length < HEADER || bytes.len() - at < length {
            return out;
        }
        let area: usize = at + length;
        // The string set runs to a double NUL. A structure with no strings
        // still gets both of them, so the terminator is the same search
        // either way. Without one the table is truncated.
        let end: usize = match find_double_nul(bytes, area) {
            Some(i) => i + 2,
            None => return out,
        };
        let kind: u8 = bytes[at];
        let s = Structure {
            kind,
            handle: rd_u16(bytes, at + 2),
            formatted: &bytes[at..area],
            strings: &bytes[area..end],
        };
        let ghost view = s@;
        out.push(s);
        assert(structures_of(out@) =~= done.push(view));
        assert(done.push(view) =~= done + seq![view]);
        if kind == TYPE_END_OF_TABLE {
            return out;
        }
        left -= 1;
        proof {
            let rest = structures_from(bytes@, end as int, left as nat);
            assert(done + (seq![view] + rest) =~= done.push(view) + rest);
        }
        at = end;
    }
    assert(structures_of(out@) + Seq::<StructureView>::empty() =~= structures_of(out@));
    out
}

// ------------------------------------------------------------------ masking

/// How much of a masked value is left showing.
///
/// Enough to tell two machines apart, not enough to be one of them. A
/// vendor prefix is shared by every unit of a model, so it gives a reader
/// nothing the `product` line above it did not already say.
pub const KEPT: usize = 3;

/// The shortest value worth keeping a stub of.
///
/// Below this, three characters is most of the value rather than a hint at
/// it, so nothing is kept.
pub const MIN_TO_STUB: usize = 6;

/// How many characters of a value of this length are left showing.
pub open spec fn stub_len(len: nat) -> nat {
    if len >= MIN_TO_STUB {
        KEPT as nat
    } else {
        0
    }
}

/// A serial number, masked.
pub open spec fn masked(value: Seq<char>) -> Seq<char> {
    let kept = stub_len(value.len());
    value.take(kept as int) + filled('*', (value.len() - kept) as nat) + " (masked)"@
}

/// A serial number, as it goes into a file somebody is about to publish.
///
/// Masked rather than dropped, and the length preserved, because the report
/// is also read by the machine's owner: "the field is there, it is twelve
/// characters, it starts FMT" is enough to match two reports to each other
/// and to check the firmware has not lost it, while a stranger reading the
/// thread cannot quote the number back to a warranty desk.
pub fn mask(value: &str) -> (r: String)
    ensures
        r@ == masked(value@),
{
    let chars = to_chars(value);
    let len: usize = chars.len();
    let kept: usize = if len >= MIN_TO_STUB {
        KEPT
    } else {
        0
    };
    assert(chars@.subrange(0, kept as int) =~= value@.take(kept as int));
    let mut s = from_chars(&chars.as_slice()[0..kept]);
    s.push_str(filled_text('*', len - kept).as_str());
    s.push_str(" (masked)");
    s
}

/// Firmware's own way of saying a serial-type field was never set.
pub open spec fn placeholder(value: Seq<char>) -> bool {
    same_fold(encode_utf8(value), encode_utf8("unknown"@))
}

/// Whether a serial-type field holds firmware's own way of saying the field
/// was never set, rather than a real value worth masking.
///
/// `Unknown` is what a lot of boards ship in the serial and asset-tag
/// strings when nobody has programmed one; masking it does not protect the
/// owner, it just makes an empty field look like a real serial to whoever
/// reads the report.
fn is_placeholder(value: &str) -> (r: bool)
    ensures
        r == placeholder(value@),
{
    folds(value.as_bytes(), "unknown".as_bytes())
}

/// What is shown of a serial-type field.
pub open spec fn secret_text(value: Option<Seq<char>>) -> Option<Seq<char>> {
    match value {
        None => None,
        Some(v) => Some(
            if placeholder(v) {
                v
            } else {
                masked(v)
            },
        ),
    }
}

fn secret(value: Option<String>) -> (r: Option<String>)
    ensures
        content_of(r) == secret_text(content_of(value)),
{
    match value {
        None => None,
        Some(v) => if is_placeholder(v.as_str()) {
            Some(v)
        } else {
            Some(mask(v.as_str()))
        },
    }
}

/// A UUID, masked: the first group stands, and every dash.
pub open spec fn masked_groups(text: Seq<char>) -> Seq<char> {
    Seq::new(
        text.len(),
        |i: int|
            if text[i] == '-' || !text.take(i).contains('-') {
                text[i]
            } else {
                '*'
            },
    )
}

/// The same, for a UUID: the first group stands, the rest goes.
///
/// The shape is kept so that it still reads as a UUID and not as a field
/// that failed to parse. The first group alone is 32 bits: plenty to
/// correlate two reports, nowhere near enough to reconstruct the value.
fn mask_guid(guid: Guid) -> (r: String)
    ensures
        r@ == masked_groups(guid_text(guid.0@)),
{
    let text = guid.to_text();
    let chars = to_chars(text.as_str());
    let mut out = String::new();
    let mut past = false;
    let mut i: usize = 0;
    while i < chars.len()
        invariant
            i <= chars.len(),
            chars@ == text@,
            past == text@.take(i as int).contains('-'),
            out@ == masked_groups(text@).take(i as int),
        decreases chars.len() - i,
    {
        let c: char = chars[i];
        if c == '-' || !past {
            out.push(c);
        } else {
            out.push('*');
        }
        proof {
            let before = text@.take(i as int);
            let after = text@.take(i + 1);
            assert(after =~= before.push(c));
            if before.contains('-') {
                let j = choose|j: int| 0 <= j < before.len() && before[j] == '-';
                assert(after[j] == '-');
            }
            if c == '-' {
                assert(after[i as int] == '-');
            }
            if after.contains('-') && c != '-' {
                let j = choose|j: int| 0 <= j < after.len() && after[j] == '-';
                assert(before[j] == '-');
            }
        }
        if c == '-' {
            past = true;
        }
        i += 1;
        assert(masked_groups(text@).take(i as int) =~= masked_groups(text@).take(i - 1).push(
            masked_groups(text@)[i - 1],
        ));
    }
    assert(masked_groups(text@).take(i as int) =~= masked_groups(text@));
    out
}

// ---------------------------------------------------------------- rendering

/// The first structure of this kind from `i` on.
pub open spec fn kind_from(all: Seq<StructureView>, kind: u8, i: int) -> Option<StructureView>
    decreases all.len() - i,
{
    if i < 0 || i >= all.len() {
        None
    } else if all[i].kind == kind {
        Some(all[i])
    } else {
        kind_from(all, kind, i + 1)
    }
}

fn find<'a, 'b>(all: &'b Vec<Structure<'a>>, kind: u8) -> (r: Option<&'b Structure<'a>>)
    ensures
        match r {
            Some(s) => kind_from(structures_of(all@), kind, 0) == Some(s@),
            None => kind_from(structures_of(all@), kind, 0) is None,
        },
{
    let mut i: usize = 0;
    while i < all.len()
        invariant
            i <= all.len(),
            kind_from(structures_of(all@), kind, 0) == kind_from(
                structures_of(all@),
                kind,
                i as int,
            ),
        decreases all.len() - i,
    {
        if all[i].kind == kind {
            return Some(&all[i]);
        }
        i += 1;
    }
    None
}

/// What the system structure says.
pub open spec fn system_lines(s: StructureView) -> Seq<LineView> {
    seq![
        styled("  System:"@, Style::Title),
        value_line("manufacturer"@, s.text_at(0x04)),
        value_line("product"@, s.text_at(0x05)),
        value_line("version"@, s.text_at(0x06)),
        value_line("serial"@, secret_text(s.text_at(0x07))),
        value_line(
            "UUID"@,
            match s.sixteen_at(0x08) {
                Some(b) => Some(masked_groups(guid_text(b))),
                None => None,
            },
        ),
        value_line("SKU"@, s.text_at(0x19)),
        value_line("family"@, s.text_at(0x1A)),
    ]
}

/// The BIOS release, where the firmware reports one. 0xFF means that it
/// does not, and 0.0 is what firmware that left the field alone produces.
pub open spec fn release_lines(s: StructureView) -> Seq<LineView> {
    match (s.byte_at(0x14), s.byte_at(0x15)) {
        (Some(major), Some(minor)) => if major != 0xFF && !(major == 0 && minor == 0) {
            seq![
                field_line(
                    Style::Normal,
                    "release"@,
                    dec(major as nat) + "."@ + dec(minor as nat),
                ),
            ]
        } else {
            Seq::empty()
        },
        _ => Seq::empty(),
    }
}

/// What the BIOS structure says.
pub open spec fn bios_lines(s: StructureView) -> Seq<LineView> {
    seq![
        blank_line(),
        styled("  BIOS:"@, Style::Title),
        value_line("vendor"@, s.text_at(0x04)),
        value_line("version"@, s.text_at(0x05)),
        value_line("release date"@, s.text_at(0x08)),
    ] + release_lines(s)
}

/// What the baseboard structure says.
pub open spec fn board_lines(s: StructureView) -> Seq<LineView> {
    seq![
        blank_line(),
        styled("  Baseboard:"@, Style::Title),
        value_line("manufacturer"@, s.text_at(0x04)),
        value_line("product"@, s.text_at(0x05)),
        value_line("version"@, s.text_at(0x06)),
        value_line("serial"@, secret_text(s.text_at(0x07))),
    ]
}

/// What the chassis structure says.
pub open spec fn chassis_lines(s: StructureView) -> Seq<LineView> {
    seq![
        blank_line(),
        styled("  Chassis:"@, Style::Title),
        value_line("manufacturer"@, s.text_at(0x04)),
        value_line("version"@, s.text_at(0x06)),
        value_line("serial"@, secret_text(s.text_at(0x07))),
        value_line("asset tag"@, secret_text(s.text_at(0x08))),
    ]
}

/// What the processor structure says.
pub open spec fn processor_lines(s: StructureView) -> Seq<LineView> {
    seq![
        blank_line(),
        styled("  Processor:"@, Style::Title),
        value_line("manufacturer"@, s.text_at(0x07)),
        value_line("version"@, s.text_at(0x10)),
        value_line(
            "max speed"@,
            match s.word_at(0x14) {
                Some(mhz) => Some(dec(mhz as nat) + " MHz"@),
                None => None,
            },
        ),
        value_line(
            "cores"@,
            match s.byte_at(0x23) {
                Some(n) => Some(dec(n as nat)),
                None => None,
            },
        ),
        value_line("serial"@, secret_text(s.text_at(0x20))),
        value_line("asset tag"@, secret_text(s.text_at(0x21))),
        value_line("part number"@, secret_text(s.text_at(0x22))),
    ]
}

/// What the structures of a kind say: the first one, as far as the kind is
/// one worth reporting.
#[verifier::opaque]
pub open spec fn part_lines(all: Seq<StructureView>, kind: u8) -> Seq<LineView> {
    match kind_from(all, kind, 0) {
        Some(s) => if kind == 0 {
            bios_lines(s)
        } else if kind == 1 {
            system_lines(s)
        } else if kind == 2 {
            board_lines(s)
        } else if kind == 3 {
            chassis_lines(s)
        } else {
            processor_lines(s)
        },
        None => Seq::empty(),
    }
}

/// Everything worth putting in a report, from the structures of a table.
///
/// Kinds 0, 1, 2 and 3 occur once and describe the machine; kind 4 occurs
/// once per socket, and the first one is the one worth reporting.
pub open spec fn machine_lines(all: Seq<StructureView>) -> Seq<LineView> {
    if all.len() == 0 {
        seq![styled("  The SMBIOS table holds no readable structures."@, Style::Dim)]
    } else {
        (part_lines(all, 1) + part_lines(all, 0) + part_lines(all, 2) + part_lines(all, 3)
            + part_lines(all, 4)).push(blank_line()).push(
            styled("  "@ + dec(all.len()) + " structures in the table."@, Style::Dim),
        ).push(
            styled(
                "  Serial numbers and the system UUID are masked; see docs/report.md."@,
                Style::Dim,
            ),
        )
    }
}

fn render_system(s: &Structure) -> (r: Vec<Line>)
    ensures
        shown(r@) == system_lines(s@),
{
    let mut out = no_lines();
    add_line(&mut out, title("  System:"));
    add_line(&mut out, field_value("manufacturer", s.string_at(0x04)));
    add_line(&mut out, field_value("product", s.string_at(0x05)));
    add_line(&mut out, field_value("version", s.string_at(0x06)));
    add_line(&mut out, field_value("serial", secret(s.string_at(0x07))));
    let uuid = match s.guid_at(0x08) {
        Some(guid) => Some(mask_guid(guid)),
        None => None,
    };
    add_line(&mut out, field_value("UUID", uuid));
    add_line(&mut out, field_value("SKU", s.string_at(0x19)));
    add_line(&mut out, field_value("family", s.string_at(0x1A)));
    out
}

fn render_bios(s: &Structure) -> (r: Vec<Line>)
    ensures
        shown(r@) == bios_lines(s@),
{
    let mut out = no_lines();
    add_line(&mut out, Line::blank());
    add_line(&mut out, title("  BIOS:"));
    add_line(&mut out, field_value("vendor", s.string_at(0x04)));
    add_line(&mut out, field_value("version", s.string_at(0x05)));
    add_line(&mut out, field_value("release date", s.string_at(0x08)));
    let ghost head = shown(out@);
    assert(head + Seq::<LineView>::empty() =~= head);
    if let (Some(major), Some(minor)) = (s.byte(0x14), s.byte(0x15)) {
        if major != 0xFF && !(major == 0 && minor == 0) {
            let mut text = dec_text(major as u64);
            text.push_str(".");
            text.push_str(dec_text(minor as u64).as_str());
            let l = field("release", text);
            assert(head.push(l@) =~= head + seq![l@]);
            add_line(&mut out, l);
        }
    }
    out
}

fn render_board(s: &Structure) -> (r: Vec<Line>)
    ensures
        shown(r@) == board_lines(s@),
{
    let mut out = no_lines();
    add_line(&mut out, Line::blank());
    add_line(&mut out, title("  Baseboard:"));
    add_line(&mut out, field_value("manufacturer", s.string_at(0x04)));
    add_line(&mut out, field_value("product", s.string_at(0x05)));
    add_line(&mut out, field_value("version", s.string_at(0x06)));
    add_line(&mut out, field_value("serial", secret(s.string_at(0x07))));
    out
}

fn render_chassis(s: &Structure) -> (r: Vec<Line>)
    ensures
        shown(r@) == chassis_lines(s@),
{
    let mut out = no_lines();
    add_line(&mut out, Line::blank());
    add_line(&mut out, title("  Chassis:"));
    add_line(&mut out, field_value("manufacturer", s.string_at(0x04)));
    add_line(&mut out, field_value("version", s.string_at(0x06)));
    add_line(&mut out, field_value("serial", secret(s.string_at(0x07))));
    add_line(&mut out, field_value("asset tag", secret(s.string_at(0x08))));
    out
}

fn render_processor(s: &Structure) -> (r: Vec<Line>)
    ensures
        shown(r@) == processor_lines(s@),
{
    let mut out = no_lines();
    add_line(&mut out, Line::blank());
    add_line(&mut out, title("  Processor:"));
    add_line(&mut out, field_value("manufacturer", s.string_at(0x07)));
    add_line(&mut out, field_value("version", s.string_at(0x10)));
    let speed = match s.word(0x14) {
        Some(mhz) => {
            let mut text = dec_text(mhz as u64);
            text.push_str(" MHz");
            Some(text)
        },
        None => None,
    };
    add_line(&mut out, field_value("max speed", speed));
    let cores = match s.byte(0x23) {
        Some(n) => Some(dec_text(n as u64)),
        None => None,
    };
    add_line(&mut out, field_value("cores", cores));
    add_line(&mut out, field_value("serial", secret(s.string_at(0x20))));
    add_line(&mut out, field_value("asset tag", secret(s.string_at(0x21))));
    add_line(&mut out, field_value("part number", secret(s.string_at(0x22))));
    out
}

fn render_part(all: &Vec<Structure>, kind: u8) -> (r: Vec<Line>)
    ensures
        shown(r@) == part_lines(structures_of(all@), kind),
{
    reveal(part_lines);
    match find(all, kind) {
        Some(s) => if kind == 0 {
            render_bios(s)
        } else if kind == 1 {
            render_system(s)
        } else if kind == 2 {
            render_board(s)
        } else if kind == 3 {
            render_chassis(s)
        } else {
            render_processor(s)
        },
        None => no_lines(),
    }
}

/// Everything worth putting in a report, from a structure table.
pub fn render(bytes: &[u8]) -> (r: Vec<Line>)
    ensures
        shown(r@) == machine_lines(structures_from(bytes@, 0, MAX_STRUCTURES as nat)),
{
    let all = structures(bytes);
    if all.len() == 0 {
        let mut out = no_lines();
        add_line(&mut out, dim("  The SMBIOS table holds no readable structures."));
        return out;
    }
    let mut out = render_part(&all, 1);
    add_lines(&mut out, render_part(&all, 0));
    add_lines(&mut out, render_part(&all, 2));
    add_lines(&mut out, render_part(&all, 3));
    add_lines(&mut out, render_part(&all, 4));
    add_line(&mut out, Line::blank());
    let mut s = "  ".to_owned();
    s.push_str(dec_text(all.len() as u64).as_str());
    s.push_str(" structures in the table.");
    add_line(&mut out, dim(s));
    add_line(
        &mut out,
        dim("  Serial numbers and the system UUID are masked; see docs/report.md."),
    );
    assert(structures_of(all@).len() == all@.len());
    out
}

// -------------------------------------------------------- finding the table

/// The largest structure table worth copying.
///
/// Real ones are a few kilobytes. It is a bound on what a garbled entry
/// point can talk us into allocating.
pub const MAX_TABLE: usize = 0x10_0000;

/// A table worth copying: somewhere, and of a plausible length.
pub open spec fn copyable(at: u64, len: int) -> bool {
    at != 0 && 0 < len <= MAX_TABLE
}

/// `_SM3_`.
pub open spec fn anchor_v3() -> Seq<u8> {
    seq![0x5Fu8, 0x53u8, 0x4Du8, 0x33u8, 0x5Fu8]
}

/// `_SM_`.
pub open spec fn anchor_v1() -> Seq<u8> {
    seq![0x5Fu8, 0x53u8, 0x4Du8, 0x5Fu8]
}

/// Where a 3.0 entry point says the table is, and how long it may be.
pub open spec fn named_v3(ep: Seq<u8>) -> Option<(u64, usize)> {
    if ep.len() < 0x18 || ep.take(5) != anchor_v3() || !copyable(
        le64(ep, 0x10),
        le32(ep, 0x0C) as int,
    ) {
        None
    } else {
        Some((le64(ep, 0x10), le32(ep, 0x0C) as usize))
    }
}

/// Where a 2.1 entry point says the table is, and how long it is.
pub open spec fn named_v1(ep: Seq<u8>) -> Option<(u64, usize)> {
    if ep.len() < 0x1F || ep.take(4) != anchor_v1() || !copyable(
        le32(ep, 0x18) as u64,
        le16(ep, 0x16) as int,
    ) {
        None
    } else {
        Some((le32(ep, 0x18) as u64, le16(ep, 0x16) as usize))
    }
}

/// SMBIOS 3.0: `_SM3_`, a 64-bit table address, a 32-bit maximum size.
///
/// **Maximum**, not exact: 3.0 dropped the exact length that 2.1 carried,
/// and a table's real end is the last structure inside it.
pub fn read_v3(ep: &[u8]) -> (r: Option<(u64, usize)>)
    ensures
        r == named_v3(ep@),
{
    if ep.len() < 0x18 {
        return None;
    }
    let anchored = ep[0] == 0x5F && ep[1] == 0x53 && ep[2] == 0x4D && ep[3] == 0x33 && ep[4]
        == 0x5F;
    assert(anchored == (ep@.take(5) =~= anchor_v3()));
    let len: u32 = rd_u32(ep, 0x0C);
    let at: u64 = rd_u64(ep, 0x10);
    if !anchored || at == 0 || len == 0 || len > MAX_TABLE as u32 {
        return None;
    }
    Some((at, len as usize))
}

/// SMBIOS 2.1: `_SM_`, a 32-bit table address, a 16-bit length.
pub fn read_v1(ep: &[u8]) -> (r: Option<(u64, usize)>)
    ensures
        r == named_v1(ep@),
{
    if ep.len() < 0x1F {
        return None;
    }
    let anchored = ep[0] == 0x5F && ep[1] == 0x53 && ep[2] == 0x4D && ep[3] == 0x5F;
    assert(anchored == (ep@.take(4) =~= anchor_v1()));
    let len: u16 = rd_u16(ep, 0x16);
    let at: u32 = rd_u32(ep, 0x18);
    if !anchored || at == 0 || len == 0 {
        return None;
    }
    Some((at as u64, len as usize))
}

/// Where the structure table is, if the firmware publishes one that is worth
/// copying.
///
/// Prefers the 64-bit entry point, since a machine that publishes both is
/// describing the same table twice and the 3.0 one is the one it maintains.
pub fn table(v3: Option<&[u8]>, v1: Option<&[u8]>) -> (r: Option<(u64, usize)>)
    ensures
        r == {
            let newer = match v3 {
                Some(ep) => named_v3(ep@),
                None => None,
            };
            if newer is Some {
                newer
            } else {
                match v1 {
                    Some(ep) => named_v1(ep@),
                    None => None,
                }
            }
        },
{
    if let Some(ep) = v3 {
        let newer = read_v3(ep);
        if newer.is_some() {
            return newer;
        }
    }
    match v1 {
        Some(ep) => read_v1(ep),
        None => None,
    }
}

// --------------------------------------------------------------------- laws

/// A masked value shows its length and at most three of its characters:
/// two values of one length that begin with the same three are masked
/// alike, and so are any two short ones of one length.
pub proof fn masking_shows_only_a_stub(a: Seq<char>, b: Seq<char>)
    requires
        a.len() == b.len(),
        a.len() >= MIN_TO_STUB ==> a.take(KEPT as int) == b.take(KEPT as int),
    ensures
        masked(a) == masked(b),
{
    assert(a.take(0) =~= b.take(0));
}

/// A masked UUID keeps its shape: dashes stand where they stood, and after
/// the first of them nothing else does.
pub proof fn masked_uuid_keeps_its_shape(text: Seq<char>, i: int)
    requires
        0 <= i < text.len(),
    ensures
        masked_groups(text).len() == text.len(),
        (masked_groups(text)[i] == '-') == (text[i] == '-'),
        text[i] != '-' && text.take(i).contains('-') ==> masked_groups(text)[i] == '*',
{
}

/// `n` in `width` hexadecimal digits is that many characters, none a dash.
proof fn hex_has_no_dash(n: nat, width: nat)
    ensures
        hex(n, width, true).len() == width,
        forall|i: int| 0 <= i < width ==> #[trigger] hex(n, width, true)[i] != '-',
    decreases width,
{
    if width > 0 {
        hex_has_no_dash(n / 16, (width - 1) as nat);
    }
}

proof fn hex_bytes_have_no_dash(b: Seq<u8>)
    ensures
        hex_bytes(b).len() == 2 * b.len(),
        forall|i: int| 0 <= i < 2 * b.len() ==> #[trigger] hex_bytes(b)[i] != '-',
    decreases b.len(),
{
    if b.len() > 0 {
        hex_bytes_have_no_dash(b.drop_last());
        hex_has_no_dash(b.last() as nat, 2);
        let front = hex_bytes(b.drop_last());
        assert forall|i: int| 0 <= i < 2 * b.len() implies #[trigger] hex_bytes(b)[i] != '-' by {
            if i >= front.len() {
                assert(hex_bytes(b)[i] == hex(b.last() as nat, 2, true)[i - front.len()]);
            } else {
                assert(hex_bytes(b)[i] == front[i]);
            }
        }
    }
}

/// A masked UUID shows its first eight digits and a star for every other.
pub proof fn masked_uuid_shows_its_first_group(b: Seq<u8>)
    requires
        b.len() == 16,
    ensures
        masked_groups(guid_text(b)) == hex(le32(b, 0) as nat, 8, true)
            + "-****-****-****-************"@,
{
    let (g1, g2, g3) = (
        hex(le32(b, 0) as nat, 8, true),
        hex(le16(b, 4) as nat, 4, true),
        hex(le16(b, 6) as nat, 4, true),
    );
    let (g4, g5) = (hex(b[8] as nat, 2, true), hex(b[9] as nat, 2, true));
    let g6 = hex_bytes(b.subrange(10, 16));
    hex_has_no_dash(le32(b, 0) as nat, 8);
    hex_has_no_dash(le16(b, 4) as nat, 4);
    hex_has_no_dash(le16(b, 6) as nat, 4);
    hex_has_no_dash(b[8] as nat, 2);
    hex_has_no_dash(b[9] as nat, 2);
    hex_bytes_have_no_dash(b.subrange(10, 16));
    reveal_strlit("-");
    reveal_strlit("-****-****-****-************");
    let text = guid_text(b);
    let stars = "-****-****-****-************"@;
    assert(text.len() == 36);
    assert(text[8] == '-' && text[13] == '-' && text[18] == '-' && text[23] == '-');
    assert forall|i: int| 0 <= i < 36 implies #[trigger] masked_groups(text)[i] == (g1
        + stars)[i] by {
        if i < 8 {
            assert(text[i] == g1[i]);
            assert forall|j: int| 0 <= j < i implies text.take(i)[j] != '-' by {
                assert(text[j] == g1[j]);
            }
        } else {
            if i > 8 {
                assert(text.take(i)[8] == '-');
            }
            if 8 < i < 13 {
                assert(text[i] == g2[i - 9]);
            } else if 13 < i < 18 {
                assert(text[i] == g3[i - 14]);
            } else if 18 < i < 21 {
                assert(text[i] == g4[i - 19]);
            } else if 20 < i < 23 {
                assert(text[i] == g5[i - 21]);
            } else if 23 < i {
                assert(text[i] == g6[i - 24]);
            }
        }
    }
    assert(masked_groups(text) =~= g1 + stars);
}

/// Where a structure of this kind keeps the numbers of strings that are
/// reported as they are.
pub open spec fn shown_offsets(kind: u8) -> Seq<int> {
    if kind == 0 {
        seq![0x04, 0x05, 0x08]
    } else if kind == 1 {
        seq![0x04, 0x05, 0x06, 0x19, 0x1A]
    } else if kind == 2 {
        seq![0x04, 0x05, 0x06]
    } else if kind == 3 {
        seq![0x04, 0x06]
    } else {
        seq![0x07, 0x10]
    }
}

/// String number `k` is reported as it is.
pub open spec fn shows(s: StructureView, k: nat) -> bool {
    exists|i: int|
        0 <= i < shown_offsets(s.kind).len() && #[trigger] s.byte_at(shown_offsets(s.kind)[i])
            == Some((k + 1) as u8)
}

/// Two values that masking leaves nothing to tell apart by: one length, one
/// stub, and neither a way of saying that there is none.
pub open spec fn masked_alike(a: Seq<char>, b: Seq<char>) -> bool {
    &&& a.len() == b.len()
    &&& a.take(stub_len(a.len()) as int) == b.take(stub_len(a.len()) as int)
    &&& !placeholder(a)
    &&& !placeholder(b)
}

/// Two structures that differ in masked characters only: in strings that are
/// not reported as they are, behind what is left showing of them, and in a
/// system's UUID behind its first group.
pub open spec fn same_but_masked(s: StructureView, t: StructureView) -> bool {
    &&& s.kind == t.kind
    &&& s.formatted.len() == t.formatted.len()
    &&& forall|i: int|
        0 <= i < s.formatted.len() && !(s.kind == 1 && 0x0C <= i < 0x18)
            ==> #[trigger] s.formatted[i] == t.formatted[i]
    &&& forall|k: nat|
        k < 255 ==> {
            let p = #[trigger] part_from(s.strings, 0, k);
            let q = part_from(t.strings, 0, k);
            ||| p == q
            ||| !shows(s, k) && p is Some && q is Some && masked_alike(
                printable_text(p->0),
                printable_text(q->0),
            )
        }
}

proof fn shown_text_is_the_same(s: StructureView, t: StructureView, i: int)
    requires
        same_but_masked(s, t),
        0 <= i < shown_offsets(s.kind).len(),
    ensures
        s.text_at(shown_offsets(s.kind)[i]) == t.text_at(shown_offsets(s.kind)[i]),
{
    let off = shown_offsets(s.kind)[i];
    if 0 <= off < s.formatted.len() {
        assert(s.formatted[off] == t.formatted[off]);
        let index = s.formatted[off];
        if index != 0 {
            let k = (index - 1) as nat;
            assert(s.byte_at(off) == Some((k + 1) as u8));
            assert(shows(s, k));
            assert(part_from(s.strings, 0, k) == part_from(t.strings, 0, k));
        }
    }
}

proof fn secret_text_is_the_same(s: StructureView, t: StructureView, off: int)
    requires
        same_but_masked(s, t),
        !(s.kind == 1 && 0x0C <= off < 0x18),
    ensures
        secret_text(s.text_at(off)) == secret_text(t.text_at(off)),
{
    if 0 <= off < s.formatted.len() {
        assert(s.formatted[off] == t.formatted[off]);
        let index = s.formatted[off];
        if index != 0 {
            let k = (index - 1) as nat;
            let p = part_from(s.strings, 0, k);
            let q = part_from(t.strings, 0, k);
            if p != q {
                let (a, b) = (printable_text(p->0), printable_text(q->0));
                if a.len() >= MIN_TO_STUB {
                    assert(a.take(KEPT as int) == b.take(KEPT as int));
                }
                masking_shows_only_a_stub(a, b);
            }
        }
    }
}

proof fn uuid_is_the_same(s: StructureView, t: StructureView)
    requires
        same_but_masked(s, t),
    ensures
        s.sixteen_at(0x08) is Some == t.sixteen_at(0x08) is Some,
        s.sixteen_at(0x08) is Some ==> masked_groups(guid_text(s.sixteen_at(0x08)->0))
            == masked_groups(guid_text(t.sixteen_at(0x08)->0)),
{
    if s.formatted.len() >= 0x18 {
        let (a, b) = (s.sixteen_at(0x08)->0, t.sixteen_at(0x08)->0);
        masked_uuid_shows_its_first_group(a);
        masked_uuid_shows_its_first_group(b);
        assert(le32(a, 0) == le32(b, 0)) by {
            reveal(le32);
            reveal(le16);
            assert forall|i: int| 0 <= i < 4 implies a[i] == b[i] by {
                assert(s.formatted[0x08 + i] == t.formatted[0x08 + i]);
            }
        }
    }
}

proof fn kinds_are_found_alike(a: Seq<StructureView>, b: Seq<StructureView>, kind: u8, i: int)
    requires
        a.len() == b.len(),
        forall|j: int| 0 <= j < a.len() ==> same_but_masked(#[trigger] a[j], b[j]),
        0 <= i,
    ensures
        kind_from(a, kind, i) is Some == kind_from(b, kind, i) is Some,
        kind_from(a, kind, i) is Some ==> same_but_masked(
            kind_from(a, kind, i)->0,
            kind_from(b, kind, i)->0,
        ) && kind_from(a, kind, i)->0.kind == kind,
    decreases a.len() - i,
{
    if i < a.len() {
        assert(same_but_masked(a[i], b[i]));
        kinds_are_found_alike(a, b, kind, i + 1);
    }
}

proof fn parts_are_the_same(a: Seq<StructureView>, b: Seq<StructureView>, kind: u8)
    requires
        a.len() == b.len(),
        forall|j: int| 0 <= j < a.len() ==> same_but_masked(#[trigger] a[j], b[j]),
        kind <= 4,
    ensures
        part_lines(a, kind) == part_lines(b, kind),
{
    reveal(part_lines);
    kinds_are_found_alike(a, b, kind, 0);
    if let Some(s) = kind_from(a, kind, 0) {
        let t = kind_from(b, kind, 0)->0;
        shown_text_is_the_same(s, t, 0);
        shown_text_is_the_same(s, t, 1);
        if kind == 0 {
            shown_text_is_the_same(s, t, 2);
            if s.formatted.len() > 0x14 {
                assert(s.formatted[0x14] == t.formatted[0x14]);
            }
            if s.formatted.len() > 0x15 {
                assert(s.formatted[0x15] == t.formatted[0x15]);
            }
            assert(release_lines(s) == release_lines(t));
            assert(bios_lines(s) =~= bios_lines(t));
        } else if kind == 1 {
            shown_text_is_the_same(s, t, 2);
            shown_text_is_the_same(s, t, 3);
            shown_text_is_the_same(s, t, 4);
            secret_text_is_the_same(s, t, 0x07);
            uuid_is_the_same(s, t);
            assert(system_lines(s) =~= system_lines(t));
        } else if kind == 2 {
            shown_text_is_the_same(s, t, 2);
            secret_text_is_the_same(s, t, 0x07);
            assert(board_lines(s) =~= board_lines(t));
        } else if kind == 3 {
            secret_text_is_the_same(s, t, 0x07);
            secret_text_is_the_same(s, t, 0x08);
            assert(chassis_lines(s) =~= chassis_lines(t));
        } else {
            secret_text_is_the_same(s, t, 0x20);
            secret_text_is_the_same(s, t, 0x21);
            secret_text_is_the_same(s, t, 0x22);
            if s.formatted.len() >= 0x16 {
                assert(s.formatted[0x14] == t.formatted[0x14]);
                assert(s.formatted[0x15] == t.formatted[0x15]);
                reveal(le16);
            }
            if s.formatted.len() > 0x23 {
                assert(s.formatted[0x23] == t.formatted[0x23]);
            }
            assert(processor_lines(s) =~= processor_lines(t));
        }
    }
}

/// Two tables that differ in masked characters only give the same report:
/// no line of it tells one machine's serial numbers, asset tags or UUID from
/// another's.
pub proof fn masked_characters_are_not_reported(a: Seq<StructureView>, b: Seq<StructureView>)
    requires
        a.len() == b.len(),
        forall|j: int| 0 <= j < a.len() ==> same_but_masked(#[trigger] a[j], b[j]),
    ensures
        machine_lines(a) == machine_lines(b),
{
    parts_are_the_same(a, b, 0);
    parts_are_the_same(a, b, 1);
    parts_are_the_same(a, b, 2);
    parts_are_the_same(a, b, 3);
    parts_are_the_same(a, b, 4);
}

proof fn double_nul_is_after(b: Seq<u8>, i: int)
    ensures
        double_nul(b, i) matches Some(end) ==> i <= end,
    decreases b.len() - i,
{
    if 0 <= i && i + 1 < b.len() {
        double_nul_is_after(b, i + 1);
    }
}

/// A walk bounded to `n` structures gives at most `n`, each with a whole
/// header.
pub proof fn the_walk_ends(b: Seq<u8>, at: int, n: nat)
    requires
        0 <= at,
    ensures
        structures_from(b, at, n).len() <= n,
        forall|i: int|
            0 <= i < structures_from(b, at, n).len() ==> HEADER <= (
            #[trigger] structures_from(b, at, n)[i]).formatted.len(),
    decreases n,
{
    if n > 0 {
        if let Some((s, next)) = structure_at(b, at) {
            double_nul_is_after(b, at + b[at + 1]);
            the_walk_ends(b, next, (n - 1) as nat);
            let rest = structures_from(b, next, (n - 1) as nat);
            assert forall|i: int| 0 <= i < structures_from(b, at, n).len() implies HEADER <= (
            #[trigger] structures_from(b, at, n)[i]).formatted.len() by {
                if i > 0 {
                    assert(structures_from(b, at, n)[i] == rest[i - 1]);
                }
            }
        }
    }
}


/// A masked value keeps its first three characters where it has at least six,
/// and none where it has fewer; every other is a star, and it is said that it
/// was masked.
pub proof fn a_masked_value_keeps_three_characters(value: Seq<char>, i: int)
    requires
        0 <= i < value.len(),
    ensures
        masked(value).len() == value.len() + " (masked)"@.len(),
        masked(value).skip(value.len() as int) == " (masked)"@,
        value.len() >= 6 && i < 3 ==> masked(value)[i] == value[i],
        value.len() < 6 || i >= 3 ==> masked(value)[i] == '*',
        !placeholder(value) ==> secret_text(Some(value)) == Some(masked(value)),
{
    assert(masked(value).skip(value.len() as int) =~= " (masked)"@);
}

/// The strings of a structure are told apart by the NULs between them: the
/// first is what stands before the first of them, and the one after a string
/// is what stands behind the NUL that ends it.
pub proof fn strings_stand_one_behind_the_other(first: Seq<u8>, rest: Seq<u8>, k: nat)
    requires
        !first.contains(0),
    ensures
        part_from(first + seq![0u8] + rest, 0, 0) == Some(first),
        part_from(first + seq![0u8] + rest, 0, k + 1) == part_from(rest, 0, k),
{
    let b = first + seq![0u8] + rest;
    let n = first.len() as int;
    assert forall|j: int| 0 <= j < n implies b[j] != 0 by {
        assert(first.contains(first[j]));
    }
    assert(b[n] == 0);
    the_next_nul(b, 0, n);
    assert(b.subrange(0, n) =~= first);
    parts_behind(b, rest, n + 1, 0, k);
}

proof fn the_next_nul(b: Seq<u8>, from: int, at: int)
    requires
        0 <= from <= at < b.len(),
        b[at] == 0,
        forall|j: int| from <= j < at ==> b[j] != 0,
    ensures
        nul_from(b, from) == at,
    decreases at - from,
{
    if from < at {
        the_next_nul(b, from + 1, at);
    }
}

proof fn nul_behind(b: Seq<u8>, rest: Seq<u8>, skipped: int, i: int)
    requires
        0 <= skipped <= b.len(),
        rest == b.skip(skipped),
        0 <= i <= rest.len(),
    ensures
        nul_from(b, skipped + i) == skipped + nul_from(rest, i),
        i <= nul_from(rest, i) <= rest.len(),
    decreases rest.len() - i,
{
    if i < rest.len() && rest[i] != 0 {
        nul_behind(b, rest, skipped, i + 1);
    }
}

proof fn parts_behind(b: Seq<u8>, rest: Seq<u8>, skipped: int, start: int, k: nat)
    requires
        0 <= skipped <= b.len(),
        rest =~= b.skip(skipped),
        0 <= start <= rest.len(),
    ensures
        part_from(b, skipped + start, k) == part_from(rest, start, k),
    decreases k,
{
    nul_behind(b, rest, skipped, start);
    let end = nul_from(rest, start);
    if k == 0 {
        assert(b.subrange(skipped + start, skipped + end) =~= rest.subrange(start, end));
    } else if end < rest.len() {
        parts_behind(b, rest, skipped, end + 1, (k - 1) as nat);
    }
}

/// A string is found by the number at its field, counted from one: no number
/// and no string give no text.
pub proof fn a_text_is_found_by_its_number(s: StructureView, offset: int)
    requires
        0 <= offset < s.formatted.len(),
    ensures
        s.formatted[offset] == 0 ==> s.text_at(offset) is None,
        s.text_at(offset) matches Some(text) ==> text.len() > 0 && (part_from(
            s.strings,
            0,
            (s.formatted[offset] - 1) as nat,
        ) matches Some(part) && text == printable_text(part)),
        s.formatted[offset] > 0 ==> (part_from(
            s.strings,
            0,
            (s.formatted[offset] - 1) as nat,
        ) matches Some(part) ==> (printable_text(part).len() > 0 ==> s.text_at(offset) == Some(
            printable_text(part),
        ))),
{
}

/// The table is where the newer entry point says, or the older one where
/// there is no newer one: each is known by its anchor, and one that names no
/// place or an absurd length names no table.
pub proof fn an_entry_point_names_its_table(ep: Seq<u8>)
    ensures
        named_v3(ep) matches Some((at, len)) ==> ep.len() >= 24 && ep[0] == '_' as u8 && ep[1]
            == 'S' as u8 && ep[2] == 'M' as u8 && ep[3] == '3' as u8 && ep[4] == '_' as u8 && at
            == le64(ep, 16) && len == le32(ep, 12) && at != 0 && 0 < len <= 0x10_0000,
        named_v1(ep) matches Some((at, len)) ==> ep.len() >= 31 && ep[0] == '_' as u8 && ep[1]
            == 'S' as u8 && ep[2] == 'M' as u8 && ep[3] == '_' as u8 && at == le32(ep, 24) && len
            == le16(ep, 22) && at != 0 && len > 0,
{
    if named_v3(ep) is Some {
        assert(ep.take(5)[0] == ep[0] && ep.take(5)[1] == ep[1] && ep.take(5)[2] == ep[2]
            && ep.take(5)[3] == ep[3] && ep.take(5)[4] == ep[4]);
    }
    if named_v1(ep) is Some {
        assert(ep.take(4)[0] == ep[0] && ep.take(4)[1] == ep[1] && ep.take(4)[2] == ep[2]
            && ep.take(4)[3] == ep[3]);
    }
}

} // verus!
