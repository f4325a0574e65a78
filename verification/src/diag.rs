//! The plain-text diagnostic report: its shape, its name, and the parts of
//! it that can be written without firmware.
//!
//! The report exists to be *pasted into a forum post*. That is a different
//! audience from every other screen: not the operator standing in front of
//! the machine, who can press View and look again, but somebody reading a
//! wall of text on another continent a day later, who cannot ask a
//! follow-up question cheaply. So this renders far more than a screen
//! would (every header field, every partition's GUIDs, the four MBR records
//! as numbers) and it never abbreviates a value to fit.
//!
//! Two rules follow from that audience:
//!
//! * **Nothing is wrapped to a width.** A device path is the single most
//!   useful line in a report about a machine that will not boot, and one
//!   broken across three lines cannot be searched for or diffed. [`WIDTH`]
//!   is only what the section rules are drawn to.
//! * **Lines still carry a [`Style`].** The file drops it ([`to_text`]
//!   keeps the text alone) but the same lines are shown on screen before
//!   they are saved.

use crate::bytes::le32;
use crate::disk::IoError;
use crate::entry::PartitionEntry;
use crate::guid::guid_text;
use crate::header::{quad, quad_text, word, word_text, Defect, GptHeader, GPT_SIGNATURE};
use crate::layout::{any_used, describe_type, type_label};
use crate::mbr::{self, empty_at, MbrRecord};
use crate::names;
use crate::repair::{Analysis, TableView};
use crate::report::{analysis_lines, extent_size, extent_text, render_analysis};
use crate::style::{
    add_line, add_lines, bad, blank_line, dim, key, line, no_lines, shown, styled, title, Line,
    LineView, Style, Text,
};
use crate::text::{
    add_name, content_of, dec, dec_text, filled, filled_text, hex, hex_text, is_space, joined,
    joined_text, named, pad_left, pad_left_text, pad_right, pad_right_text, strings_of, succ_text,
    texts_of, trim_end,
    trimmed_end, trimmed_end_is_trimmed,
};
use vstd::prelude::*;

verus! {

/// How wide the section rules are drawn.
///
/// 78 so that a line of rule plus a terminal's own margin still fits an
/// 80-column window, which is what most of the places this gets pasted
/// into still assume.
pub const WIDTH: usize = 78;

/// Reports are named `diag-001.txt`, `diag-002.txt`, ...
pub const MAX_SEQUENCE: u32 = 999;

/// How wide a field label is padded to, so a column of them reads down.
///
/// Long enough for `first usable LBA`, which is the longest label in the
/// report.
pub const LABEL: usize = 18;

/// The number in `diag-NNN.txt`, case-insensitively: FAT may hand back
/// `DIAG-001.TXT`.
pub fn sequence_of(name: &str) -> (r: Option<u32>)
    ensures
        r == names::sequence_of_text(name@, "diag-"@, ".txt"@),
{
    names::sequence_of(name, "diag-", ".txt")
}

/// The next name to write, given what is already there.
///
/// Counts up from the highest and never fills a gap, exactly as the
/// snapshots do. A report is cheaper to lose than a partition table, but
/// two different reports sharing a name is the same failure, and somebody
/// comparing "before" and "after" is the person most likely to be holding
/// both.
pub fn next_name(existing: &[String]) -> (r: Option<String>)
    ensures
        content_of(r) == names::name_after(
            strings_of(existing@),
            "diag-"@,
            ".txt"@,
            MAX_SEQUENCE,
        ),
{
    names::next_name(existing, "diag-", ".txt", MAX_SEQUENCE)
}

// ----------------------------------------------------------------- the file

/// The lines as a file holds them.
pub open spec fn file_text(lines: Seq<LineView>) -> Seq<char>
    decreases lines.len(),
{
    if lines.len() == 0 {
        Seq::empty()
    } else {
        file_text(lines.drop_last()) + trimmed_end(lines.last().text) + "\r\n"@
    }
}

/// The report as it goes into the file.
///
/// CRLF, and a trailing one. The destinations are FAT volumes that get
/// carried to whatever machine the operator has to hand, and a file whose
/// line endings only work on the platform that wrote it would fail at
/// precisely the step this exists for: opening it and pasting it somewhere.
pub fn to_text(lines: &[Line]) -> (r: String)
    ensures
        r@ == file_text(shown(lines@)),
{
    let mut out = String::new();
    let mut i: usize = 0;
    while i < lines.len()
        invariant
            i <= lines.len(),
            out@ == file_text(shown(lines@).take(i as int)),
        decreases lines.len() - i,
    {
        // Trailing spaces survive a copy-paste and show up as ragged
        // whitespace in a code block; a blank line is written as nothing.
        out.push_str(trim_end(lines[i].text.as_str()).as_str());
        out.push_str("\r\n");
        i += 1;
        assert(shown(lines@).take(i as int).drop_last() =~= shown(lines@).take(i - 1));
    }
    assert(shown(lines@).take(i as int) =~= shown(lines@));
    out
}

// --------------------------------------------------------------- the pieces

/// A section heading and its rule, with a blank line above it.
pub open spec fn section_lines(name: Seq<char>) -> Seq<LineView> {
    let used = name.len() + 5;
    let dashes = if used < WIDTH {
        (WIDTH - used) as nat
    } else {
        0
    };
    seq![blank_line(), styled("--- "@ + name + " "@ + filled('-', dashes), Style::Title)]
}

/// A section heading and its rule, with a blank line above it.
pub fn section(name: &str) -> (r: Vec<Line>)
    ensures
        shown(r@) == section_lines(name@),
{
    let mut out = no_lines();
    add_line(&mut out, Line::blank());
    let len: usize = name.unicode_len();
    let dashes: usize = if len < WIDTH - 5 {
        WIDTH - 5 - len
    } else {
        0
    };
    let mut s = "--- ".to_owned();
    s.push_str(name);
    s.push_str(" ");
    s.push_str(filled_text('-', dashes).as_str());
    add_line(&mut out, title(s));
    out
}

/// `label : value`, indented under whatever heading it belongs to.
pub open spec fn field_line(style: Style, label: Seq<char>, value: Seq<char>) -> LineView {
    styled("    "@ + pad_right(label, LABEL as nat) + ": "@ + value, style)
}

/// `label : value`, indented under whatever heading it belongs to.
pub fn field<T: Text>(label: &str, value: T) -> (r: Line)
    ensures
        r@ == field_line(Style::Normal, label@, value.content()),
{
    field_as(Style::Normal, label, value)
}

/// The same, for something the reader is most likely looking for.
pub fn field_key<T: Text>(label: &str, value: T) -> (r: Line)
    ensures
        r@ == field_line(Style::Key, label@, value.content()),
{
    field_as(Style::Key, label, value)
}

/// The same, saying what it means: a finding gets [`Style::Bad`] here
/// exactly as it would on a screen.
pub fn field_as<T: Text>(style: Style, label: &str, value: T) -> (r: Line)
    ensures
        r@ == field_line(style, label@, value.content()),
{
    let mut s = "    ".to_owned();
    s.push_str(pad_right_text(label, LABEL).as_str());
    s.push_str(": ");
    s.push_str(value.into_string().as_str());
    Line::new(s, style)
}

/// A field the machine may simply not have filled in.
pub open spec fn value_line(label: Seq<char>, value: Option<Seq<char>>) -> LineView {
    match value {
        Some(v) => field_line(Style::Normal, label, v),
        None => field_line(Style::Dim, label, "not specified"@),
    }
}

/// A field the machine may simply not have filled in.
///
/// "not specified" rather than a blank, and dim rather than normal: an
/// empty value after a colon reads as a bug, and somebody comparing two
/// reports needs to see that the field was asked for and came back empty.
pub fn field_value(label: &str, value: Option<String>) -> (r: Line)
    ensures
        r@ == value_line(label@, content_of(value)),
{
    match value {
        Some(v) => field(label, v),
        None => field_as(Style::Dim, label, "not specified"),
    }
}

// ------------------------------------------------------------------ the MBR

/// Three bytes of a cylinder/head/sector address.
pub open spec fn chs_text(b: Seq<u8>) -> Seq<char> {
    hex(b[0] as nat, 2, true) + " "@ + hex(b[1] as nat, 2, true) + " "@ + hex(b[2] as nat, 2, true)
}

fn chs(b: &[u8; 3]) -> (r: String)
    ensures
        r@ == chs_text(b@),
{
    let mut s = hex_text(b[0] as u64, 2, true);
    s.push_str(" ");
    s.push_str(hex_text(b[1] as u64, 2, true).as_str());
    s.push_str(" ");
    s.push_str(hex_text(b[2] as u64, 2, true).as_str());
    s
}

/// One row of the record list.
pub open spec fn record_row(
    number: Seq<char>,
    boot: Seq<char>,
    kind: Seq<char>,
    start: Seq<char>,
    blocks: Seq<char>,
    start_chs: Seq<char>,
    end_chs: Seq<char>,
) -> Seq<char> {
    "    "@ + pad_left(number, 2, ' ') + "  "@ + pad_left(boot, 4, ' ') + "  "@ + pad_left(
        kind,
        4,
        ' ',
    ) + "  "@ + pad_left(start, 12, ' ') + "  "@ + pad_left(blocks, 12, ' ') + "  "@ + pad_right(
        start_chs,
        10,
    ) + " "@ + end_chs
}

fn record_row_text(
    number: &str,
    boot: &str,
    kind: &str,
    start: &str,
    blocks: &str,
    start_chs: &str,
    end_chs: &str,
) -> (r: String)
    ensures
        r@ == record_row(number@, boot@, kind@, start@, blocks@, start_chs@, end_chs@),
{
    let mut s = "    ".to_owned();
    s.push_str(pad_left_text(number, 2, ' ').as_str());
    s.push_str("  ");
    s.push_str(pad_left_text(boot, 4, ' ').as_str());
    s.push_str("  ");
    s.push_str(pad_left_text(kind, 4, ' ').as_str());
    s.push_str("  ");
    s.push_str(pad_left_text(start, 12, ' ').as_str());
    s.push_str("  ");
    s.push_str(pad_left_text(blocks, 12, ' ').as_str());
    s.push_str("  ");
    s.push_str(pad_right_text(start_chs, 10).as_str());
    s.push_str(" ");
    s.push_str(end_chs);
    s
}

/// The line of record `i` of the MBR in `b`.
///
/// 0xEE is the protective record and is expected; anything else in an MBR
/// alongside it is the finding.
pub open spec fn record_line(b: Seq<u8>, i: int) -> LineView {
    let off = 446 + 16 * i;
    let number = dec((i + 1) as nat);
    if empty_at(b, i) {
        styled("    "@ + pad_left(number, 2, ' ') + "  (unused)"@, Style::Dim)
    } else {
        styled(
            record_row(
                number,
                "0x"@ + hex(b[off] as nat, 2, true),
                "0x"@ + hex(b[off + 4] as nat, 2, true),
                dec(le32(b, off + 8) as nat),
                dec(le32(b, off + 12) as nat),
                chs_text(b.subrange(off + 1, off + 4)),
                chs_text(b.subrange(off + 5, off + 8)),
            ),
            if b[off + 4] == 0xEE {
                Style::Normal
            } else {
                Style::Key
            },
        )
    }
}

/// The four MBR records as numbers.
pub open spec fn mbr_lines(b: Seq<u8>) -> Seq<LineView> {
    let head = seq![blank_line(), styled("  MBR partition records at LBA 0:"@, Style::Title)];
    if b.len() < 512 {
        head.push(styled("    the block at LBA 0 is shorter than 512 bytes"@, Style::Bad))
    } else {
        head.push(
            styled(
                record_row(
                    "#"@,
                    "boot"@,
                    "type"@,
                    "start LBA"@,
                    "blocks"@,
                    "start CHS"@,
                    "end CHS"@,
                ),
                Style::Dim,
            ),
        ) + Seq::new(4, |i: int| record_line(b, i))
    }
}

fn render_record(i: usize, r: &MbrRecord, Ghost(b): Ghost<Seq<u8>>) -> (l: Line)
    requires
        i < 4,
        b.len() >= 512,
        r.parsed_from(b, 446 + 16 * i),
    ensures
        l@ == record_line(b, i as int),
{
    let number = succ_text(i as u64);
    if r.is_empty() {
        let mut s = "    ".to_owned();
        s.push_str(pad_left_text(number.as_str(), 2, ' ').as_str());
        s.push_str("  (unused)");
        return dim(s);
    }
    let mut boot = "0x".to_owned();
    boot.push_str(hex_text(r.boot_indicator as u64, 2, true).as_str());
    let mut kind = "0x".to_owned();
    kind.push_str(hex_text(r.os_type as u64, 2, true).as_str());
    let text = record_row_text(
        number.as_str(),
        boot.as_str(),
        kind.as_str(),
        dec_text(r.starting_lba as u64).as_str(),
        dec_text(r.size_in_lba as u64).as_str(),
        chs(&r.start_chs).as_str(),
        chs(&r.end_chs).as_str(),
    );
    if r.os_type == 0xEE {
        line(text)
    } else {
        key(text)
    }
}

/// The four MBR records as numbers.
///
/// Printed even when the block is as it should be, because "protective" is
/// a judgement and these are the evidence for it. A disk that boots Windows
/// through a hybrid MBR is diagnosed here and nowhere else.
pub fn render_mbr(block: &[u8]) -> (r: Vec<Line>)
    ensures
        shown(r@) == mbr_lines(block@),
{
    let mut out = no_lines();
    add_line(&mut out, Line::blank());
    add_line(&mut out, title("  MBR partition records at LBA 0:"));
    let records = match mbr::records(block) {
        Some(records) => records,
        None => {
            add_line(&mut out, bad("    the block at LBA 0 is shorter than 512 bytes"));
            return out;
        },
    };
    add_line(
        &mut out,
        dim(
            record_row_text(
                "#",
                "boot",
                "type",
                "start LBA",
                "blocks",
                "start CHS",
                "end CHS",
            ),
        ),
    );
    let ghost head = shown(out@);
    let ghost b = block@;
    let mut i: usize = 0;
    assert(shown(out@) =~= head + Seq::new(0, |j: int| record_line(b, j)));
    while i < records.len()
        invariant
            b == block@,
            b.len() >= 512,
            records@.len() == 4,
            mbr::records_of(records@, b),
            i <= 4,
            shown(out@) == head + Seq::new(i as nat, |j: int| record_line(b, j)),
        decreases 4 - i,
    {
        assert(records@[i as int].parsed_from(b, 446 + 16 * i));
        add_line(&mut out, render_record(i, &records[i], Ghost(b)));
        i += 1;
        assert(shown(out@) =~= head + Seq::new(i as nat, |j: int| record_line(b, j)));
    }
    out
}

// --------------------------------------------------------------- the header

/// The signature, and whether it is the right one.
pub open spec fn signature_text(signature: u64) -> Seq<char> {
    quad(signature) + (if signature == GPT_SIGNATURE {
        "  \"EFI PART\""@
    } else {
        "  NOT \"EFI PART\""@
    })
}

/// Every field of a header.
pub open spec fn header_fields(h: GptHeader) -> Seq<LineView> {
    seq![
        field_line(Style::Normal, "signature"@, signature_text(h.signature)),
        field_line(Style::Normal, "revision"@, word(h.revision)),
        field_line(Style::Normal, "header size"@, dec(h.header_size as nat) + " bytes"@),
        field_line(Style::Normal, "header CRC32"@, word(h.header_crc32)),
        field_line(Style::Normal, "reserved"@, word(h.reserved)),
        field_line(Style::Key, "my LBA"@, dec(h.my_lba as nat)),
        field_line(Style::Key, "alternate LBA"@, dec(h.alternate_lba as nat)),
        field_line(Style::Normal, "first usable LBA"@, dec(h.first_usable_lba as nat)),
        field_line(Style::Normal, "last usable LBA"@, dec(h.last_usable_lba as nat)),
        field_line(Style::Key, "disk GUID"@, guid_text(h.disk_guid.0@)),
        field_line(Style::Normal, "entry array LBA"@, dec(h.partition_entry_lba as nat)),
        field_line(
            Style::Normal,
            "entry array"@,
            dec(h.number_of_partition_entries as nat) + " entries x "@ + dec(
                h.size_of_partition_entry as nat,
            ) + " bytes"@,
        ),
        field_line(Style::Normal, "entry CRC32"@, word(h.partition_entry_array_crc32)),
    ]
}

/// One line per defect.
pub open spec fn finding_lines(defects: Seq<Defect>) -> Seq<LineView> {
    Seq::new(
        defects.len(),
        |i: int| field_line(Style::Bad, "defect"@, defects[i].message()),
    )
}

/// What was found wrong with a table.
pub open spec fn findings(t: TableView) -> Seq<LineView> {
    let clean = if t.defects@.len() == 0 && t.entries_error is None {
        seq![field_line(Style::Normal, "defects"@, "none"@)]
    } else {
        Seq::<LineView>::empty()
    };
    let found = clean + finding_lines(t.defects@);
    match t.entries_error {
        Some(e) => found.push(
            field_line(
                Style::Bad,
                "defect"@,
                "entry array unreadable ("@ + e.message() + ")"@,
            ),
        ),
        None => found,
    }
}

/// Everything one header says.
pub open spec fn header_lines(label: Seq<char>, view: Result<TableView, IoError>) -> Seq<LineView> {
    let head = seq![blank_line(), styled("  "@ + label + ":"@, Style::Title)];
    match view {
        Err(e) => head.push(styled("    could not be read ("@ + e.message() + ")"@, Style::Bad)),
        Ok(t) => head + header_fields(t.header) + findings(t),
    }
}

fn render_fields(h: &GptHeader) -> (r: Vec<Line>)
    ensures
        shown(r@) == header_fields(*h),
{
    let mut out = no_lines();
    let mut signature = quad_text(h.signature);
    if h.signature == GPT_SIGNATURE {
        signature.push_str("  \"EFI PART\"");
    } else {
        signature.push_str("  NOT \"EFI PART\"");
    }
    add_line(&mut out, field("signature", signature));
    add_line(&mut out, field("revision", word_text(h.revision)));
    let mut size = dec_text(h.header_size as u64);
    size.push_str(" bytes");
    add_line(&mut out, field("header size", size));
    add_line(&mut out, field("header CRC32", word_text(h.header_crc32)));
    add_line(&mut out, field("reserved", word_text(h.reserved)));
    add_line(&mut out, field_key("my LBA", dec_text(h.my_lba)));
    add_line(&mut out, field_key("alternate LBA", dec_text(h.alternate_lba)));
    add_line(&mut out, field("first usable LBA", dec_text(h.first_usable_lba)));
    add_line(&mut out, field("last usable LBA", dec_text(h.last_usable_lba)));
    add_line(&mut out, field_key("disk GUID", h.disk_guid.to_text()));
    add_line(&mut out, field("entry array LBA", dec_text(h.partition_entry_lba)));
    let mut array = dec_text(h.number_of_partition_entries as u64);
    array.push_str(" entries x ");
    array.push_str(dec_text(h.size_of_partition_entry as u64).as_str());
    array.push_str(" bytes");
    add_line(&mut out, field("entry array", array));
    add_line(&mut out, field("entry CRC32", word_text(h.partition_entry_array_crc32)));
    out
}

fn render_findings(t: &TableView) -> (r: Vec<Line>)
    ensures
        shown(r@) == findings(*t),
{
    let mut out = no_lines();
    if t.defects.len() == 0 && t.entries_error.is_none() {
        add_line(&mut out, field("defects", "none"));
    }
    let ghost head = shown(out@);
    let mut i: usize = 0;
    assert(shown(out@) =~= head + finding_lines(t.defects@.take(0)));
    while i < t.defects.len()
        invariant
            i <= t.defects.len(),
            shown(out@) == head + finding_lines(t.defects@.take(i as int)),
        decreases t.defects.len() - i,
    {
        add_line(&mut out, field_as(Style::Bad, "defect", t.defects[i].to_text()));
        i += 1;
        assert(shown(out@) =~= head + finding_lines(t.defects@.take(i as int)));
    }
    assert(t.defects@.take(i as int) =~= t.defects@);
    if let Some(e) = t.entries_error {
        let mut s = "entry array unreadable (".to_owned();
        s.push_str(e.to_text());
        s.push_str(")");
        add_line(&mut out, field_as(Style::Bad, "defect", s));
    }
    out
}

/// Every field of one GPT header, whether or not it is wrong.
///
/// A header is fourteen numbers and the whole argument about whether a
/// table is sound is conducted in them. The analysis names the defects;
/// this is what somebody checks them against.
pub fn render_header(label: &str, view: &Result<TableView, IoError>) -> (r: Vec<Line>)
    ensures
        shown(r@) == header_lines(label@, *view),
{
    let mut out = no_lines();
    add_line(&mut out, Line::blank());
    let mut s = "  ".to_owned();
    s.push_str(label);
    s.push_str(":");
    add_line(&mut out, title(s));
    match view {
        Err(e) => {
            let mut s = "    could not be read (".to_owned();
            s.push_str(e.to_text());
            s.push_str(")");
            add_line(&mut out, bad(s));
        },
        Ok(t) => {
            add_lines(&mut out, render_fields(&t.header));
            add_lines(&mut out, render_findings(t));
        },
    }
    out
}

// ----------------------------------------------------------- the partitions

/// The attribute bits the UEFI spec gives a meaning to.
pub open spec fn attribute_names(attributes: u64) -> Seq<Seq<char>> {
    named(attributes & 1 != 0, "required"@) + named(attributes & 2 != 0, "no-block-io"@) + named(
        attributes & 4 != 0,
        "legacy-bios-bootable"@,
    )
}

/// What the attribute bits of a partition say.
pub open spec fn attributes_text(attributes: u64) -> Seq<char> {
    let names = attribute_names(attributes);
    let type_specific = attributes >> 48;
    if names.len() == 0 && type_specific == 0 {
        Seq::empty()
    } else {
        "  ["@ + joined(names, ", "@) + (if type_specific != 0 {
            (if names.len() > 0 {
                ", "@
            } else {
                Seq::empty()
            }) + "type-specific bits 0x"@ + hex(type_specific as nat, 4, false)
        } else {
            Seq::empty()
        }) + "]"@
    }
}

/// The attribute bits the UEFI spec gives a meaning to.
///
/// Bits 48..63 are reserved to the partition *type*, not to the spec, so
/// they are reported as a number and not guessed at.
pub fn describe_attributes(attributes: u64) -> (r: String)
    ensures
        r@ == attributes_text(attributes),
{
    let mut names: Vec<&'static str> = Vec::new();
    assert(texts_of(names@) =~= Seq::<Seq<char>>::empty());
    add_name(&mut names, attributes & 1 != 0, "required");
    assert(texts_of(names@) =~= named(attributes & 1 != 0, "required"@));
    add_name(&mut names, attributes & 2 != 0, "no-block-io");
    add_name(&mut names, attributes & 4 != 0, "legacy-bios-bootable");
    assert(texts_of(names@).len() == names@.len());
    let type_specific: u64 = attributes >> 48;
    if names.len() == 0 && type_specific == 0 {
        return String::new();
    }
    let mut out = "  [".to_owned();
    out.push_str(joined_text(names.as_slice(), ", ").as_str());
    let mut bits = String::new();
    if type_specific != 0 {
        if names.len() > 0 {
            bits.push_str(", ");
        }
        assert(bits@ =~= if names@.len() > 0 {
            ", "@
        } else {
            Seq::empty()
        });
        bits.push_str("type-specific bits 0x");
        bits.push_str(hex_text(type_specific, 4, false).as_str());
    }
    out.push_str(bits.as_str());
    out.push_str("]");
    out
}

/// The lines of one partition.
pub open spec fn partition_lines(e: PartitionEntry, i: int, block_size: u32) -> Seq<LineView> {
    seq![
        styled(
            "    "@ + pad_left(dec((i + 1) as nat), 2, ' ') + "  \""@ + e.name_text() + "\""@,
            Style::Key,
        ),
        styled(
            "          LBA "@ + dec(e.starting_lba as nat) + " - "@ + dec(e.ending_lba as nat)
                + "   "@ + (match e.extent() {
                Some(blocks) => dec(blocks as nat),
                None => "?"@,
            }) + " blocks   "@ + extent_size(e, block_size, "invalid range"@),
            Style::Normal,
        ),
        styled(
            "          type   "@ + guid_text(e.type_guid.0@) + "  ("@ + type_label(e.type_guid)
                + ")"@,
            Style::Normal,
        ),
        styled("          unique "@ + guid_text(e.unique_guid.0@), Style::Dim),
        styled(
            "          attrs  "@ + quad(e.attributes) + attributes_text(e.attributes),
            Style::Dim,
        ),
    ]
}

/// The lines of the used partitions among the first `n`.
pub open spec fn partitions_lines(entries: Seq<PartitionEntry>, n: nat, block_size: u32) -> Seq<
    LineView,
>
    decreases n,
{
    if n == 0 {
        Seq::empty()
    } else {
        let rest = partitions_lines(entries, (n - 1) as nat, block_size);
        if entries[n - 1].used() {
            rest + partition_lines(entries[n - 1], n - 1, block_size)
        } else {
            rest
        }
    }
}

/// One table's list of partitions.
///
/// An array that would not read leaves the list empty, which is the same
/// shape as a wiped table and means something entirely different; the two
/// are told apart.
pub open spec fn list_lines(caption: Seq<char>, t: TableView, block_size: u32) -> Seq<LineView> {
    let head = seq![blank_line(), styled("  "@ + caption + ":"@, Style::Title)];
    match t.entries_error {
        Some(e) => head.push(
            styled(
                "    unknown - the entry array could not be read ("@ + e.message() + ")"@,
                Style::Bad,
            ),
        ),
        None => if !any_used(t.entries@) {
            head.push(styled("    none - every entry in the array is unused"@, Style::Bad))
        } else {
            head + partitions_lines(t.entries@, t.entries@.len(), block_size)
        },
    }
}

fn render_partition(e: &PartitionEntry, i: usize, block_size: u32) -> (r: Vec<Line>)
    ensures
        shown(r@) == partition_lines(*e, i as int, block_size),
{
    let mut out = no_lines();
    let mut s = "    ".to_owned();
    s.push_str(pad_left_text(succ_text(i as u64).as_str(), 2, ' ').as_str());
    s.push_str("  \"");
    s.push_str(e.name_string().as_str());
    s.push_str("\"");
    add_line(&mut out, key(s));
    let blocks = match e.block_count() {
        Some(blocks) => dec_text(blocks),
        None => "?".to_owned(),
    };
    let mut s = "          LBA ".to_owned();
    s.push_str(dec_text(e.starting_lba).as_str());
    s.push_str(" - ");
    s.push_str(dec_text(e.ending_lba).as_str());
    s.push_str("   ");
    s.push_str(blocks.as_str());
    s.push_str(" blocks   ");
    s.push_str(extent_text(e, block_size, "invalid range").as_str());
    add_line(&mut out, line(s));
    let mut s = "          type   ".to_owned();
    s.push_str(e.type_guid.to_text().as_str());
    s.push_str("  (");
    s.push_str(describe_type(&e.type_guid));
    s.push_str(")");
    add_line(&mut out, line(s));
    let mut s = "          unique ".to_owned();
    s.push_str(e.unique_guid.to_text().as_str());
    add_line(&mut out, dim(s));
    let mut s = "          attrs  ".to_owned();
    s.push_str(quad_text(e.attributes).as_str());
    s.push_str(describe_attributes(e.attributes).as_str());
    add_line(&mut out, dim(s));
    out
}

fn has_used(entries: &[PartitionEntry]) -> (r: bool)
    ensures
        r == any_used(entries@),
{
    let mut i: usize = 0;
    while i < entries.len()
        invariant
            i <= entries.len(),
            forall|j: int| 0 <= j < i ==> !(#[trigger] entries@[j]).used(),
        decreases entries.len() - i,
    {
        if entries[i].is_used() {
            assert(entries@[i as int].used());
            return true;
        }
        i += 1;
    }
    false
}

fn render_list(caption: &str, t: &TableView, block_size: u32) -> (r: Vec<Line>)
    ensures
        shown(r@) == list_lines(caption@, *t, block_size),
{
    let mut out = no_lines();
    add_line(&mut out, Line::blank());
    let mut s = "  ".to_owned();
    s.push_str(caption);
    s.push_str(":");
    add_line(&mut out, title(s));
    if let Some(e) = t.entries_error {
        let mut s = "    unknown - the entry array could not be read (".to_owned();
        s.push_str(e.to_text());
        s.push_str(")");
        add_line(&mut out, bad(s));
        return out;
    }
    if !has_used(t.entries.as_slice()) {
        add_line(&mut out, bad("    none - every entry in the array is unused"));
        return out;
    }
    let ghost head = shown(out@);
    let mut i: usize = 0;
    assert(shown(out@) =~= head + partitions_lines(t.entries@, 0, block_size));
    while i < t.entries.len()
        invariant
            i <= t.entries.len(),
            shown(out@) == head + partitions_lines(t.entries@, i as nat, block_size),
        decreases t.entries.len() - i,
    {
        if t.entries[i].is_used() {
            add_lines(&mut out, render_partition(&t.entries[i], i, block_size));
        }
        i += 1;
        assert(shown(out@) =~= head + partitions_lines(t.entries@, i as nat, block_size));
    }
    out
}

/// The used entries among the first `n`.
pub open spec fn used_only(entries: Seq<PartitionEntry>, n: nat) -> Seq<PartitionEntry>
    decreases n,
{
    if n == 0 {
        Seq::empty()
    } else {
        let rest = used_only(entries, (n - 1) as nat);
        if entries[n - 1].used() {
            rest.push(entries[n - 1])
        } else {
            rest
        }
    }
}

/// Two tables describe the same partitions.
pub open spec fn agree(a: Seq<PartitionEntry>, b: Seq<PartitionEntry>) -> bool {
    used_only(a, a.len()) == used_only(b, b.len())
}

fn pick_used(entries: &[PartitionEntry]) -> (r: Vec<PartitionEntry>)
    ensures
        r@ == used_only(entries@, entries@.len()),
{
    let mut out: Vec<PartitionEntry> = Vec::new();
    let mut i: usize = 0;
    while i < entries.len()
        invariant
            i <= entries.len(),
            out@ == used_only(entries@, i as nat),
        decreases entries.len() - i,
    {
        if entries[i].is_used() {
            out.push(entries[i]);
        }
        i += 1;
    }
    out
}

/// Whether two tables describe the same set of used partitions.
pub fn same_partitions(a: &[PartitionEntry], b: &[PartitionEntry]) -> (r: bool)
    ensures
        r == agree(a@, b@),
{
    let ours = pick_used(a);
    let theirs = pick_used(b);
    if ours.len() != theirs.len() {
        return false;
    }
    let mut i: usize = 0;
    while i < ours.len()
        invariant
            i <= ours.len(),
            ours@.len() == theirs@.len(),
            ours@ == used_only(a@, a@.len()),
            theirs@ == used_only(b@, b@.len()),
            forall|j: int| 0 <= j < i ==> ours@[j] == theirs@[j],
        decreases ours.len() - i,
    {
        if !ours[i].same(&theirs[i]) {
            assert(ours@[i as int] != theirs@[i as int]);
            return false;
        }
        i += 1;
    }
    assert(ours@ =~= theirs@);
    true
}

/// The table has a list of partitions to compare.
pub open spec fn listed(view: Result<TableView, IoError>) -> bool {
    view matches Ok(t) && t.entries_error is None
}

/// The partitions, from whichever tables could be read.
///
/// A table whose entry array would not read has no list to compare, and
/// saying the two "differ" would blame the disk for an I/O failure.
pub open spec fn both_lists(a: Analysis) -> Seq<LineView> {
    let first = match a.main {
        Ok(t) => list_lines("Partitions, as the main GPT has them"@, t, a.block_size),
        Err(_) => seq![
            blank_line(),
            styled("  The main GPT could not be read, so it lists no partitions."@, Style::Bad),
        ],
    };
    let second = match a.secondary {
        Err(_) => seq![
            blank_line(),
            styled(
                "  The secondary GPT could not be read, so it lists no partitions."@,
                Style::Bad,
            ),
        ],
        Ok(t) => {
            let list = list_lines(
                "Partitions, as the secondary GPT has them"@,
                t,
                a.block_size,
            );
            if !listed(a.main) || !listed(a.secondary) {
                list
            } else if agree(a.main->Ok_0.entries@, t.entries@) {
                seq![
                    blank_line(),
                    styled(
                        "  The secondary GPT lists exactly the same partitions."@,
                        Style::Normal,
                    ),
                ]
            } else {
                seq![
                    blank_line(),
                    styled("  The secondary GPT lists DIFFERENT partitions:"@, Style::Key),
                ] + list
            }
        },
    };
    first + second
}

/// The partitions, from whichever tables could be read.
///
/// The secondary's list is compared against the main's rather than printed
/// twice. On a healthy disk they are identical and a second copy is forty
/// lines nobody reads; when they differ, that difference is the single most
/// important thing in the report and deserves to be stated, not left to be
/// spotted.
pub fn render_partitions(analysis: &Analysis) -> (r: Vec<Line>)
    ensures
        shown(r@) == both_lists(*analysis),
{
    let mut out = match &analysis.main {
        Ok(t) => render_list("Partitions, as the main GPT has them", t, analysis.block_size),
        Err(_) => {
            let mut out = no_lines();
            add_line(&mut out, Line::blank());
            add_line(
                &mut out,
                bad("  The main GPT could not be read, so it lists no partitions."),
            );
            out
        },
    };
    let second = match (&analysis.main, &analysis.secondary) {
        (_, Err(_)) => {
            let mut out = no_lines();
            add_line(&mut out, Line::blank());
            add_line(
                &mut out,
                bad("  The secondary GPT could not be read, so it lists no partitions."),
            );
            out
        },
        (main, Ok(s)) => {
            let list = render_list(
                "Partitions, as the secondary GPT has them",
                s,
                analysis.block_size,
            );
            match main {
                Ok(m) => if m.entries_error.is_some() || s.entries_error.is_some() {
                    list
                } else if same_partitions(m.entries.as_slice(), s.entries.as_slice()) {
                    let mut out = no_lines();
                    add_line(&mut out, Line::blank());
                    add_line(
                        &mut out,
                        line("  The secondary GPT lists exactly the same partitions."),
                    );
                    out
                } else {
                    let mut out = no_lines();
                    add_line(&mut out, Line::blank());
                    add_line(&mut out, key("  The secondary GPT lists DIFFERENT partitions:"));
                    add_lines(&mut out, list);
                    out
                },
                Err(_) => list,
            }
        },
    };
    add_lines(&mut out, second);
    out
}

/// Everything the tables on one disk say.
pub open spec fn disk_lines(a: Analysis) -> Seq<LineView> {
    analysis_lines(a) + mbr_lines(a.mbr_raw@) + header_lines("Main GPT header"@, a.main)
        + header_lines("Secondary GPT header"@, a.secondary) + both_lists(a)
}

/// Everything the tables on one disk say, in full.
///
/// The screen's own analysis first, so that a reader who knows it sees the
/// familiar verdict block, then the detail no screen has room for.
pub fn render_disk(analysis: &Analysis) -> (r: Vec<Line>)
    ensures
        shown(r@) == disk_lines(*analysis),
{
    let mut out = render_analysis(analysis);
    add_lines(&mut out, render_mbr(analysis.mbr_raw.as_slice()));
    add_lines(&mut out, render_header("Main GPT header", &analysis.main));
    add_lines(&mut out, render_header("Secondary GPT header", &analysis.secondary));
    add_lines(&mut out, render_partitions(analysis));
    out
}

// --------------------------------------------------------------------- laws

/// A report that is not empty ends in CRLF, and what stands before it never
/// ends in white space: a line carries no trailing spaces into the file, and
/// loses nothing else.
pub proof fn every_line_ends_cleanly(lines: Seq<LineView>)
    requires
        lines.len() > 0,
    ensures
        ({
            let kept = trimmed_end(lines.last().text);
            &&& file_text(lines) == file_text(lines.drop_last()) + kept + "\r\n"@
            &&& kept == lines.last().text.take(kept.len() as int)
            &&& kept.len() > 0 ==> !is_space(kept.last())
            &&& forall|i: int|
                kept.len() <= i < lines.last().text.len() ==> is_space(
                    #[trigger] lines.last().text[i],
                )
        }),
    decreases lines.last().text.len(),
{
    trimmed_end_is_trimmed(lines.last().text);
}


/// The two tables are said to list the same partitions exactly if the used
/// entries of one are those of the other, in the same order: where an entry
/// stands in the array does not matter.
pub proof fn tables_agree_if_their_used_entries_do(
    a: Seq<PartitionEntry>,
    b: Seq<PartitionEntry>,
    taken: spec_fn(PartitionEntry) -> bool,
)
    requires
        forall|e: PartitionEntry| #[trigger] taken(e) == e.used(),
    ensures
        agree(a, b) <==> a.filter(taken) == b.filter(taken),
{
    used_is_a_filter(a, a.len(), taken);
    used_is_a_filter(b, b.len(), taken);
    assert(a.take(a.len() as int) =~= a);
    assert(b.take(b.len() as int) =~= b);
}

proof fn used_is_a_filter(
    entries: Seq<PartitionEntry>,
    n: nat,
    taken: spec_fn(PartitionEntry) -> bool,
)
    requires
        n <= entries.len(),
        forall|e: PartitionEntry| #[trigger] taken(e) == e.used(),
    ensures
        used_only(entries, n) == entries.take(n as int).filter(taken),
    decreases n,
{
    reveal(Seq::filter);
    let part = entries.take(n as int);
    if n > 0 {
        used_is_a_filter(entries, (n - 1) as nat, taken);
        assert(part.drop_last() =~= entries.take(n - 1));
        assert(part.last() == entries[n - 1]);
    } else {
        assert(part =~= Seq::<PartitionEntry>::empty());
    }
}

/// Every used partition is in the report, by its slot and its name, with
/// where it lies, its type, its own GUID and its attributes.
pub proof fn every_used_partition_is_reported(
    entries: Seq<PartitionEntry>,
    n: nat,
    block_size: u32,
    i: int,
) -> (at: int)
    requires
        0 <= i < n <= entries.len(),
        entries[i].used(),
    ensures
        ({
            let lines = partitions_lines(entries, n, block_size);
            let e = entries[i];
            &&& 0 <= at && at + 5 <= lines.len()
            &&& lines[at].text == "    "@ + pad_left(dec((i + 1) as nat), 2, ' ') + "  \""@
                + e.name_text() + "\""@
            &&& lines[at + 1].text == "          LBA "@ + dec(e.starting_lba as nat) + " - "@ + dec(
                e.ending_lba as nat,
            ) + "   "@ + (match e.extent() {
                Some(blocks) => dec(blocks as nat),
                None => "?"@,
            }) + " blocks   "@ + extent_size(e, block_size, "invalid range"@)
            &&& lines[at + 2].text == "          type   "@ + guid_text(e.type_guid.0@) + "  ("@
                + type_label(e.type_guid) + ")"@
            &&& lines[at + 3].text == "          unique "@ + guid_text(e.unique_guid.0@)
            &&& lines[at + 4].text == "          attrs  "@ + quad(e.attributes) + attributes_text(
                e.attributes,
            )
        }),
    decreases n,
{
    if i < n - 1 {
        every_used_partition_is_reported(entries, (n - 1) as nat, block_size, i)
    } else {
        partitions_lines(entries, (n - 1) as nat, block_size).len() as int
    }
}

/// An attribute is named exactly if its bit is set.
pub proof fn attributes_go_by_their_bits(attributes: u64)
    ensures
        attribute_names(attributes).contains("required"@) <==> attributes & 1 != 0,
        attribute_names(attributes).contains("no-block-io"@) <==> attributes & 2 != 0,
        attribute_names(attributes).contains("legacy-bios-bootable"@) <==> attributes & 4 != 0,
{
    reveal_strlit("required");
    reveal_strlit("no-block-io");
    reveal_strlit("legacy-bios-bootable");
    assert("required"@[0] == 'r' && "no-block-io"@[0] == 'n' && "legacy-bios-bootable"@[0] == 'l');
    let all = attribute_names(attributes);
    let a = named(attributes & 1 != 0, "required"@);
    let b = named(attributes & 2 != 0, "no-block-io"@);
    let c = named(attributes & 4 != 0, "legacy-bios-bootable"@);
    if attributes & 1 != 0 {
        assert(all[0] == "required"@);
    }
    if attributes & 2 != 0 {
        assert(all[a.len() as int] == "no-block-io"@);
    }
    if attributes & 4 != 0 {
        assert(all[(a.len() + b.len()) as int] == "legacy-bios-bootable"@);
    }
}

} // verus!
