//! Saving the whole boot configuration to a file before changing it.
//!
//! `BootOrder` and the `Boot####` entries are small, a few hundred bytes
//! all told, and they are the only copy. There is no backup `BootOrder` at
//! the far end of NVRAM the way there is a backup GPT at the far end of a
//! disk, so an edit made from a screen with no keyboard has nothing behind
//! it unless something puts a copy somewhere first.
//!
//! This is that copy: every global variable the boot process depends on,
//! stored verbatim, next to the GPT snapshots on the ESP. Variables are
//! held as opaque name/bytes pairs and are *not* re-encoded on the way in
//! or out: a `Boot####` this build cannot parse is exactly the one worth
//! having a byte-for-byte copy of.
//!
//! Same shape as [`crate::backup`]: little-endian, a CRC32 over everything
//! before it, and a metadata section recording what was true when it was
//! taken.

use crate::backup::{
    damage_breaks_the_seal, find_meta, low32, low32_of, meta_from, same_le32, sealed, Timestamp,
};
use crate::bootopt::{
    add_write, may_write, parse_slot, slot_of_text, var_writes_of, writable, VarWrite, VarWriteView,
};
use crate::bytes::{
    a_flipped_bit_is_a_change, bytes16, bytes32, copied, le16, le16_reads_bytes16, le32, le32_reads_bytes32, put_bytes,
    put_u16, put_u32, rd_u16, rd_u32, same_bytes,
};
use crate::crc::{crc32_of, Crc32};
use crate::meta::{
    decode_meta, durable, encode_meta, meta_bytes, metadata_round_trips, pairs_of, section_pairs,
    Pair, MAX_PAIRS,
};
use crate::names;
use crate::style::{
    add_line, blank_line, dim, key, no_lines, shown, styled, title, Line, LineView, Style,
};
use crate::text::{
    content_of, dec, dec_text, hex_min, hex_min_text, pad_right, pad_right_text, same_text, strings_of, utf8_text,
};
use vstd::prelude::*;
use vstd::utf8::{
    decode_utf8, encode_utf8, encode_utf8_decode_utf8, encode_utf8_valid_utf8, valid_utf8,
};

verus! {

pub const VERSION: u32 = 1;

/// Snapshots are `boot.NNN`, alongside the GPT snapshots' `gpt.NNN`.
pub const MAX_SEQUENCE: u32 = 999;

/// Magic, version, timestamp, variable count.
pub const FIXED_LEN: usize = 23;

/// `EFIBOOTC`.
pub open spec fn magic() -> Seq<u8> {
    seq![0x45u8, 0x46u8, 0x49u8, 0x42u8, 0x4Fu8, 0x4Fu8, 0x54u8, 0x43u8]
}

fn magic_bytes() -> (r: [u8; 8])
    ensures
        r@ == magic(),
{
    let r: [u8; 8] = [0x45, 0x46, 0x49, 0x42, 0x4F, 0x4F, 0x54, 0x43];
    assert(r@ =~= magic());
    r
}

/// A variable: its name and its bytes.
pub type Var = (Seq<char>, Seq<u8>);

/// Variables as values.
pub open spec fn vars_of(vars: Seq<(String, Vec<u8>)>) -> Seq<Var> {
    Seq::new(vars.len(), |i: int| (vars[i].0@, vars[i].1@))
}

/// The boot configuration as it stood, ready to encode.
#[derive(Clone, PartialEq, Eq, Debug)]
pub struct Snapshot {
    pub time: Timestamp,
    /// Variable name and its raw bytes, in the order they were read.
    pub vars: Vec<(String, Vec<u8>)>,
    pub meta: Vec<(String, String)>,
}

/// A [`Snapshot`] as a value.
pub struct SnapshotView {
    pub time: Timestamp,
    pub vars: Seq<Var>,
    pub meta: Seq<Pair>,
}

impl View for Snapshot {
    type V = SnapshotView;

    open spec fn view(&self) -> SnapshotView {
        SnapshotView {
            time: self.time,
            vars: vars_of(self.vars@),
            meta: pairs_of(self.meta@),
        }
    }
}

/// How many of the first `n` variables are boot entries.
pub open spec fn entries_among(vars: Seq<Var>, n: nat) -> nat
    decreases n,
{
    if n == 0 {
        0
    } else if slot_of_text(vars[n - 1].0) is Some {
        entries_among(vars, (n - 1) as nat) + 1
    } else {
        entries_among(vars, (n - 1) as nat)
    }
}

/// The data of the first variable of this name, from `i` on.
pub open spec fn var_from(vars: Seq<Var>, name: Seq<char>, i: int) -> Option<Seq<u8>>
    decreases vars.len() - i,
{
    if i < 0 || i >= vars.len() {
        None
    } else if vars[i].0 == name {
        Some(vars[i].1)
    } else {
        var_from(vars, name, i + 1)
    }
}

impl Snapshot {
    /// How many of the variables are boot entries rather than settings.
    pub fn entry_count(&self) -> (r: usize)
        ensures
            r == entries_among(self@.vars, self@.vars.len()),
            r <= self@.vars.len(),
    {
        let mut count: usize = 0;
        let mut i: usize = 0;
        while i < self.vars.len()
            invariant
                count <= i <= self.vars.len(),
                count == entries_among(self@.vars, i as nat),
            decreases self.vars.len() - i,
        {
            assert(self@.vars[i as int].0 == self.vars@[i as int].0@);
            if parse_slot(self.vars[i].0.as_str()).is_some() {
                count += 1;
            }
            i += 1;
        }
        count
    }

    /// The bytes of a variable, if it was saved.
    pub fn get(&self, name: &str) -> (r: Option<&[u8]>)
        ensures
            match r {
                Some(data) => var_from(self@.vars, name@, 0) == Some(data@),
                None => var_from(self@.vars, name@, 0) is None,
            },
    {
        let mut i: usize = 0;
        while i < self.vars.len()
            invariant
                i <= self.vars.len(),
                var_from(self@.vars, name@, 0) == var_from(self@.vars, name@, i as int),
            decreases self.vars.len() - i,
        {
            if same_text(self.vars[i].0.as_str(), name) {
                return Some(self.vars[i].1.as_slice());
            }
            i += 1;
        }
        None
    }

    /// What was recorded about the snapshot under this key.
    pub fn meta_get(&self, key: &str) -> (r: Option<&str>)
        ensures
            match r {
                Some(v) => meta_from(self@.meta, key@, 0) == Some(v@),
                None => meta_from(self@.meta, key@, 0) is None,
            },
    {
        find_meta(&self.meta, key)
    }
}

#[derive(Clone, Copy, PartialEq, Eq, Structural, Debug)]
pub enum DecodeError {
    TooShort,
    BadMagic,
    UnsupportedVersion { found: u32 },
    BadChecksum { stored: u32, computed: u32 },
    /// A length field points past the end of the file.
    Truncated { at: usize },
    /// A variable name that is not UTF-8.
    BadName,
}

impl DecodeError {
    /// What the operator is told.
    pub open spec fn message(self) -> Seq<char> {
        match self {
            DecodeError::TooShort => "file is too short to be a boot snapshot"@,
            DecodeError::BadMagic => "not a boot snapshot"@,
            DecodeError::UnsupportedVersion { found } => "written by a later build (version "@
                + dec(found as nat) + ")"@,
            DecodeError::BadChecksum { stored, computed } => "checksum mismatch (stored 0x"@
                + hex_min(stored as nat) + ", computed 0x"@ + hex_min(computed as nat) + ")"@,
            DecodeError::Truncated { at } => "file is truncated at byte "@ + dec(at as nat),
            DecodeError::BadName => "file holds a variable name that is not text"@,
        }
    }

    /// What the operator is told.
    pub fn to_text(&self) -> (r: String)
        ensures
            r@ == self.message(),
    {
        match *self {
            DecodeError::TooShort => "file is too short to be a boot snapshot".to_owned(),
            DecodeError::BadMagic => "not a boot snapshot".to_owned(),
            DecodeError::UnsupportedVersion { found } => {
                let mut s = "written by a later build (version ".to_owned();
                s.push_str(dec_text(found as u64).as_str());
                s.push_str(")");
                s
            },
            DecodeError::BadChecksum { stored, computed } => {
                let mut s = "checksum mismatch (stored 0x".to_owned();
                s.push_str(hex_min_text(stored as u64).as_str());
                s.push_str(", computed 0x");
                s.push_str(hex_min_text(computed as u64).as_str());
                s.push_str(")");
                s
            },
            DecodeError::Truncated { at } => {
                let mut s = "file is truncated at byte ".to_owned();
                s.push_str(dec_text(at as u64).as_str());
                s
            },
            DecodeError::BadName => "file holds a variable name that is not text".to_owned(),
        }
    }
}

// ------------------------------------------------------------------ writing

/// The low 16 bits of a length.
pub open spec fn low16(n: nat) -> u16 {
    (n % 0x1_0000) as u16
}

/// The fixed part of a file.
#[verifier::opaque]
pub open spec fn fixed_part(s: SnapshotView) -> Seq<u8> {
    magic() + bytes32(VERSION) + s.time.bytes() + bytes32(low32(s.vars.len()))
}

/// One variable, with its lengths.
#[verifier::opaque]
pub open spec fn var_bytes(v: Var) -> Seq<u8> {
    bytes16(low16(encode_utf8(v.0).len())) + encode_utf8(v.0) + bytes32(low32(v.1.len())) + v.1
}

/// The first `n` variables, one after the other.
pub open spec fn var_part(vars: Seq<Var>, n: nat) -> Seq<u8>
    decreases n,
{
    if n == 0 {
        Seq::empty()
    } else {
        var_part(vars, (n - 1) as nat) + var_bytes(vars[n - 1])
    }
}

/// Everything a file holds but its checksum.
pub open spec fn snapshot_body(s: SnapshotView) -> Seq<u8> {
    fixed_part(s) + var_part(s.vars, s.vars.len()) + bytes32(low32(meta_bytes(s.meta).len()))
        + meta_bytes(s.meta)
}

fn fixed_vec(snap: &Snapshot) -> (r: Vec<u8>)
    ensures
        r@ == fixed_part(snap@),
{
    reveal(fixed_part);
    let mut out: Vec<u8> = Vec::new();
    put_bytes(&mut out, magic_bytes().as_slice());
    assert(out@ =~= magic());
    put_u32(&mut out, VERSION);
    snap.time.put(&mut out);
    put_u32(&mut out, low32_of(snap.vars.len()));
    out
}

fn var_vec(name: &str, data: &[u8]) -> (r: Vec<u8>)
    ensures
        r@ == var_bytes((name@, data@)),
{
    reveal(var_bytes);
    let mut out: Vec<u8> = Vec::new();
    let text = name.as_bytes();
    put_u16(&mut out, (text.len() % 0x1_0000) as u16);
    assert(out@ =~= bytes16(low16(text@.len())));
    put_bytes(&mut out, text);
    put_u32(&mut out, low32_of(data.len()));
    put_bytes(&mut out, data);
    out
}

pub fn encode(snap: &Snapshot, crc: &impl Crc32) -> (r: Vec<u8>)
    ensures
        r@ == sealed(snapshot_body(snap@)),
{
    let mut out = fixed_vec(snap);
    let ghost fixed = out@;
    let ghost vars = snap@.vars;
    let mut i: usize = 0;
    assert(out@ =~= fixed + var_part(vars, 0));
    while i < snap.vars.len()
        invariant
            i <= snap.vars.len(),
            vars == snap@.vars,
            out@ == fixed + var_part(vars, i as nat),
        decreases snap.vars.len() - i,
    {
        let one = var_vec(snap.vars[i].0.as_str(), snap.vars[i].1.as_slice());
        assert(one@ == var_bytes(vars[i as int]));
        put_bytes(&mut out, one.as_slice());
        i += 1;
        assert(out@ =~= fixed + var_part(vars, i as nat));
    }
    let meta = encode_meta(snap.meta.as_slice());
    put_u32(&mut out, low32_of(meta.len()));
    put_bytes(&mut out, meta.as_slice());
    let sum: u32 = crc.crc32(out.as_slice());
    put_u32(&mut out, sum);
    out
}

// ------------------------------------------------------------------ reading

/// The variable at `off`, and where it ends.
///
/// Each of the four steps is a place a truncated file can claim a length
/// the file does not have.
pub open spec fn var_at(body: Seq<u8>, off: int) -> Result<(Var, int), DecodeError> {
    let name_end = off + 2 + le16(body, off);
    let data_end = name_end + 4 + le32(body, name_end);
    if off + 2 > body.len() {
        Err(DecodeError::Truncated { at: off as usize })
    } else if name_end > body.len() {
        Err(DecodeError::Truncated { at: (off + 2) as usize })
    } else if !valid_utf8(body.subrange(off + 2, name_end)) {
        Err(DecodeError::BadName)
    } else if name_end + 4 > body.len() {
        Err(DecodeError::Truncated { at: name_end as usize })
    } else if data_end > body.len() {
        Err(DecodeError::Truncated { at: (name_end + 4) as usize })
    } else {
        Ok(
            (
                (
                    decode_utf8(body.subrange(off + 2, name_end)),
                    body.subrange(name_end + 4, data_end),
                ),
                data_end,
            ),
        )
    }
}

/// `count` variables starting at `off`, and where they end.
pub open spec fn vars_at(body: Seq<u8>, off: int, count: nat) -> Result<
    (Seq<Var>, int),
    DecodeError,
>
    decreases count,
{
    if count == 0 {
        Ok((Seq::empty(), off))
    } else {
        match var_at(body, off) {
            Err(e) => Err(e),
            Ok((v, end)) => match vars_at(body, end, (count - 1) as nat) {
                Ok((rest, stop)) => Ok((seq![v] + rest, stop)),
                Err(e) => Err(e),
            },
        }
    }
}

/// The metadata section at `off`.
pub open spec fn meta_at(body: Seq<u8>, off: int) -> Result<Seq<Pair>, DecodeError> {
    if off + 4 > body.len() {
        Err(DecodeError::Truncated { at: off as usize })
    } else if off + 4 + le32(body, off) > body.len() {
        Err(DecodeError::Truncated { at: (off + 4) as usize })
    } else {
        Ok(section_pairs(body.subrange(off + 4, off + 4 + le32(body, off))))
    }
}

/// What the body of a file whose checksum holds says.
pub open spec fn body_says(body: Seq<u8>) -> Result<SnapshotView, DecodeError> {
    match vars_at(body, FIXED_LEN as int, le32(body, 19) as nat) {
        Err(e) => Err(e),
        Ok((vars, end)) => match meta_at(body, end) {
            Err(e) => Err(e),
            Ok(meta) => Ok(SnapshotView { time: Timestamp::at(body, 12), vars, meta }),
        },
    }
}

/// What a file says.
pub open spec fn file_says(b: Seq<u8>) -> Result<SnapshotView, DecodeError> {
    let body = b.take(b.len() - 4);
    let stored = le32(b, b.len() - 4);
    if b.len() < FIXED_LEN + 4 {
        Err(DecodeError::TooShort)
    } else if b.take(8) != magic() {
        Err(DecodeError::BadMagic)
    } else if !(1 <= le32(b, 8) <= VERSION) {
        Err(DecodeError::UnsupportedVersion { found: le32(b, 8) })
    } else if stored != crc32_of(body) {
        Err(DecodeError::BadChecksum { stored, computed: crc32_of(body) })
    } else {
        body_says(body)
    }
}

/// What decoding came to, as a value.
pub open spec fn decoded(r: Result<Snapshot, DecodeError>) -> Result<SnapshotView, DecodeError> {
    match r {
        Ok(s) => Ok(s@),
        Err(e) => Err(e),
    }
}

/// Variables read so far, followed by what the rest of the body says.
pub open spec fn continued(
    done: Seq<Var>,
    rest: Result<(Seq<Var>, int), DecodeError>,
) -> Result<(Seq<Var>, int), DecodeError> {
    match rest {
        Ok((more, end)) => Ok((done + more, end)),
        Err(e) => Err(e),
    }
}

fn read_var(body: &[u8], off: usize) -> (r: Result<((String, Vec<u8>), usize), DecodeError>)
    requires
        off <= body@.len(),
    ensures
        match r {
            Ok((v, end)) => off <= end <= body@.len() && var_at(body@, off as int) == Ok::<
                (Var, int),
                DecodeError,
            >(((v.0@, v.1@), end as int)),
            Err(e) => var_at(body@, off as int) == Err::<(Var, int), DecodeError>(e),
        },
{
    if body.len() - off < 2 {
        return Err(DecodeError::Truncated { at: off });
    }
    let name_len: usize = rd_u16(body, off) as usize;
    let name_at: usize = off + 2;
    if body.len() - name_at < name_len {
        return Err(DecodeError::Truncated { at: name_at });
    }
    let name_end: usize = name_at + name_len;
    let name = match utf8_text(&body[name_at..name_end]) {
        Some(name) => name,
        None => return Err(DecodeError::BadName),
    };
    if body.len() - name_end < 4 {
        return Err(DecodeError::Truncated { at: name_end });
    }
    let data_len: u32 = rd_u32(body, name_end);
    let data_at: usize = name_end + 4;
    if ((body.len() - data_at) as u64) < data_len as u64 {
        return Err(DecodeError::Truncated { at: data_at });
    }
    let end: usize = data_at + data_len as usize;
    Ok(((name, copied(body, data_at, end)), end))
}

fn read_vars(body: &[u8], count: u32) -> (r: Result<(Vec<(String, Vec<u8>)>, usize), DecodeError>)
    requires
        body@.len() >= FIXED_LEN,
    ensures
        match r {
            Ok((vars, end)) => end <= body@.len() && vars_at(
                body@,
                FIXED_LEN as int,
                count as nat,
            ) == Ok::<(Seq<Var>, int), DecodeError>((vars_of(vars@), end as int)),
            Err(e) => vars_at(body@, FIXED_LEN as int, count as nat) == Err::<
                (Seq<Var>, int),
                DecodeError,
            >(e),
        },
{
    let mut vars: Vec<(String, Vec<u8>)> = Vec::new();
    let mut off: usize = FIXED_LEN;
    let mut left: u32 = count;
    assert(vars_of(vars@) =~= Seq::<Var>::empty());
    proof {
        if let Ok((more, end)) = vars_at(body@, FIXED_LEN as int, count as nat) {
            assert(Seq::<Var>::empty() + more =~= more);
        }
    }
    while left > 0
        invariant
            FIXED_LEN <= off <= body@.len(),
            left <= count,
            vars_at(body@, FIXED_LEN as int, count as nat) == continued(
                vars_of(vars@),
                vars_at(body@, off as int, left as nat),
            ),
        decreases left,
    {
        let ghost done = vars_of(vars@);
        let (v, end): ((String, Vec<u8>), usize) = match read_var(body, off) {
            Ok(found) => found,
            Err(e) => return Err(e),
        };
        let ghost var: Var = (v.0@, v.1@);
        vars.push(v);
        assert(vars_of(vars@) =~= done.push(var));
        left -= 1;
        proof {
            if let Ok((more, stop)) = vars_at(body@, end as int, left as nat) {
                assert(done + (seq![var] + more) =~= done.push(var) + more);
            }
        }
        off = end;
    }
    assert(vars_of(vars@) + Seq::<Var>::empty() =~= vars_of(vars@));
    Ok((vars, off))
}

pub fn decode(bytes: &[u8], crc: &impl Crc32) -> (r: Result<Snapshot, DecodeError>)
    ensures
        decoded(r) == file_says(bytes@),
{
    if bytes.len() < FIXED_LEN + 4 {
        return Err(DecodeError::TooShort);
    }
    assert(bytes@.subrange(0, 8) =~= bytes@.take(8));
    if !same_bytes(&bytes[0..8], magic_bytes().as_slice()) {
        return Err(DecodeError::BadMagic);
    }
    let version: u32 = rd_u32(bytes, 8);
    if version == 0 || version > VERSION {
        return Err(DecodeError::UnsupportedVersion { found: version });
    }
    let body = &bytes[0..bytes.len() - 4];
    assert(body@ =~= bytes@.take(bytes@.len() - 4));
    let stored: u32 = rd_u32(bytes, bytes.len() - 4);
    let computed: u32 = crc.crc32(body);
    if stored != computed {
        return Err(DecodeError::BadChecksum { stored, computed });
    }
    let time = Timestamp::read(body, 12);
    let (vars, at): (Vec<(String, Vec<u8>)>, usize) = match read_vars(body, rd_u32(body, 19)) {
        Ok(found) => found,
        Err(e) => return Err(e),
    };
    if body.len() - at < 4 {
        return Err(DecodeError::Truncated { at });
    }
    let meta_len: u32 = rd_u32(body, at);
    let start: usize = at + 4;
    if ((body.len() - start) as u64) < meta_len as u64 {
        return Err(DecodeError::Truncated { at: start });
    }
    let meta = decode_meta(&body[start..start + meta_len as usize]);
    Ok(Snapshot { time, vars, meta })
}

// -------------------------------------------------------------------- names

/// The number in `boot.NNN`, case-insensitively: FAT may hand back
/// `BOOT.001`.
pub fn sequence_of(name: &str) -> (r: Option<u32>)
    ensures
        r == names::sequence_of_text(name@, "boot."@, ""@),
{
    names::sequence_of(name, "boot.", "")
}

/// The next name to write, given what is already there.
///
/// Counts from the highest rather than filling gaps, for the same reason
/// [`crate::backup::next_name`] does: reusing the number of a snapshot
/// someone deleted would make the ordering lie about which is newest. Note
/// that this is the opposite of [`crate::bootopt::next_free_slot`],
/// deliberately: a filename holds the only copy of something, a boot slot
/// holds nothing.
pub fn next_name(existing: &[String]) -> (r: Option<String>)
    ensures
        content_of(r) == names::name_after(
            strings_of(existing@),
            "boot."@,
            ""@,
            MAX_SEQUENCE,
        ),
{
    names::next_name(existing, "boot.", "", MAX_SEQUENCE)
}

// ---------------------------------------------------------------- rendering

/// One line per variable.
pub open spec fn var_lines(vars: Seq<Var>) -> Seq<LineView> {
    Seq::new(
        vars.len(),
        |i: int|
            styled(
                "    "@ + pad_right(vars[i].0, 12) + " "@ + dec(vars[i].1.len()) + " bytes"@,
                Style::Dim,
            ),
    )
}

/// What was saved.
pub open spec fn description_lines(s: SnapshotView) -> Seq<LineView> {
    let entries = entries_among(s.vars, s.vars.len());
    seq![
        styled("  Taken:   "@ + s.time.text(), Style::Key),
        styled(
            "  Holds:   "@ + dec(entries) + " boot entries and "@ + dec(
                (s.vars.len() - entries) as nat,
            ) + " other variables"@,
            Style::Dim,
        ),
        blank_line(),
        styled("  Contains:"@, Style::Title),
    ] + var_lines(s.vars)
}

/// What was saved, for the screen shown after saving it.
pub fn describe(snap: &Snapshot) -> (r: Vec<Line>)
    ensures
        shown(r@) == description_lines(snap@),
{
    let mut out = no_lines();
    let entries: usize = snap.entry_count();
    let mut s = "  Taken:   ".to_owned();
    s.push_str(snap.time.to_text().as_str());
    add_line(&mut out, key(s));
    let mut s = "  Holds:   ".to_owned();
    s.push_str(dec_text(entries as u64).as_str());
    s.push_str(" boot entries and ");
    s.push_str(dec_text((snap.vars.len() - entries) as u64).as_str());
    s.push_str(" other variables");
    add_line(&mut out, dim(s));
    add_line(&mut out, Line::blank());
    add_line(&mut out, title("  Contains:"));
    let ghost head = shown(out@);
    let ghost vars = snap@.vars;
    let mut i: usize = 0;
    assert(shown(out@) =~= head + var_lines(vars.take(0)));
    while i < snap.vars.len()
        invariant
            i <= snap.vars.len(),
            vars == snap@.vars,
            shown(out@) == head + var_lines(vars.take(i as int)),
        decreases snap.vars.len() - i,
    {
        let mut s = "    ".to_owned();
        s.push_str(pad_right_text(snap.vars[i].0.as_str(), 12).as_str());
        s.push_str(" ");
        s.push_str(dec_text(snap.vars[i].1.len() as u64).as_str());
        s.push_str(" bytes");
        add_line(&mut out, dim(s));
        i += 1;
        assert(shown(out@) =~= head + var_lines(vars.take(i as int)));
    }
    assert(vars.take(i as int) =~= vars);
    out
}

/// One-line summary of a snapshot.
pub open spec fn summary_text(s: SnapshotView) -> Seq<char> {
    s.time.text() + "  "@ + dec(entries_among(s.vars, s.vars.len())) + " entries"@
}

/// One-line summary for a list of saved snapshots.
pub fn summary(snap: &Snapshot) -> (r: String)
    ensures
        r@ == summary_text(snap@),
{
    let mut s = snap.time.to_text();
    s.push_str("  ");
    s.push_str(dec_text(snap.entry_count() as u64).as_str());
    s.push_str(" entries");
    s
}

// ---------------------------------------------------------------- restoring

/// The variables among the first `n` that may be written: the entries only,
/// or the settings only.
pub open spec fn kept(vars: Seq<Var>, n: nat, entries: bool) -> Seq<VarWriteView>
    decreases n,
{
    if n == 0 {
        Seq::empty()
    } else {
        let v = vars[n - 1];
        let rest = kept(vars, (n - 1) as nat, entries);
        if writable(v.0) && (slot_of_text(v.0) is Some) == entries {
            rest.push(VarWriteView { name: v.0, data: v.1 })
        } else {
            rest
        }
    }
}

/// The writes that put a snapshot back.
pub open spec fn restore_writes(vars: Seq<Var>) -> Seq<VarWriteView> {
    kept(vars, vars.len(), true) + kept(vars, vars.len(), false)
}

fn add_kept(out: &mut Vec<VarWrite>, snap: &Snapshot, entries: bool)
    ensures
        var_writes_of(final(out)@) == var_writes_of(old(out)@) + kept(
            snap@.vars,
            snap@.vars.len(),
            entries,
        ),
{
    let ghost head = var_writes_of(out@);
    let ghost vars = snap@.vars;
    let mut i: usize = 0;
    assert(var_writes_of(out@) =~= head + kept(vars, 0, entries));
    while i < snap.vars.len()
        invariant
            i <= snap.vars.len(),
            vars == snap@.vars,
            head == var_writes_of(old(out)@),
            var_writes_of(out@) == head + kept(vars, i as nat, entries),
        decreases snap.vars.len() - i,
    {
        let name = snap.vars[i].0.as_str();
        let data = snap.vars[i].1.as_slice();
        assert(vars[i as int] == (name@, data@));
        if may_write(name) && parse_slot(name).is_some() == entries {
            let write = VarWrite { name: name.to_owned(), data: copied(data, 0, data.len()) };
            assert(write.data@ =~= data@);
            add_write(out, write);
        }
        i += 1;
        assert(var_writes_of(out@) =~= head + kept(vars, i as nat, entries));
    }
}

/// What to write to put a snapshot back: the entries first, then the
/// settings that name them. A variable that is neither is not written,
/// whatever the file says.
pub fn plan_restore(snap: &Snapshot) -> (r: Vec<VarWrite>)
    ensures
        var_writes_of(r@) == restore_writes(snap@.vars),
{
    let mut out: Vec<VarWrite> = Vec::new();
    assert(var_writes_of(out@) =~= Seq::<VarWriteView>::empty());
    add_kept(&mut out, snap, true);
    assert(var_writes_of(out@) =~= kept(snap@.vars, snap@.vars.len(), true));
    add_kept(&mut out, snap, false);
    out
}

// --------------------------------------------------------------------- laws

/// The variables from `i` on, one after the other.
spec fn var_tail(vars: Seq<Var>, i: int) -> Seq<u8>
    decreases vars.len() - i,
{
    if i < 0 || i >= vars.len() {
        Seq::empty()
    } else {
        var_bytes(vars[i]) + var_tail(vars, i + 1)
    }
}

proof fn var_part_splits(vars: Seq<Var>, n: nat)
    requires
        n <= vars.len(),
    ensures
        var_part(vars, n) + var_tail(vars, n as int) == var_tail(vars, 0),
    decreases n,
{
    if n == 0 {
        assert(var_part(vars, 0) + var_tail(vars, 0) =~= var_tail(vars, 0));
    } else {
        var_part_splits(vars, (n - 1) as nat);
        let before = var_part(vars, (n - 1) as nat);
        let one = var_bytes(vars[n - 1]);
        let after = var_tail(vars, n as int);
        assert(before + one + after =~= before + (one + after));
    }
}

/// A variable whose lengths fit the fields that declare them.
pub open spec fn storable(v: Var) -> bool {
    encode_utf8(v.0).len() <= u16::MAX && v.1.len() <= u32::MAX
}

proof fn four_parts(
    before: Seq<u8>,
    a: Seq<u8>,
    b: Seq<u8>,
    c: Seq<u8>,
    d: Seq<u8>,
    after: Seq<u8>,
)
    requires
        a.len() == 2,
        c.len() == 4,
    ensures
        ({
            let s = before + (a + b + c + d) + after;
            let off = before.len() as int;
            &&& s.subrange(off, off + 2) == a
            &&& s.subrange(off + 2, off + 2 + b.len()) == b
            &&& s.subrange(off + 2 + b.len(), off + 6 + b.len()) == c
            &&& s.subrange(off + 6 + b.len(), off + 6 + b.len() + d.len()) == d
        }),
{
    let s = before + (a + b + c + d) + after;
    let off = before.len() as int;
    assert(s.subrange(off, off + 2) =~= a);
    assert(s.subrange(off + 2, off + 2 + b.len()) =~= b);
    assert(s.subrange(off + 2 + b.len(), off + 6 + b.len()) =~= c);
    assert(s.subrange(off + 6 + b.len(), off + 6 + b.len() + d.len()) =~= d);
}

/// A variable reads back as it was written.
proof fn var_reads_back(v: Var, before: Seq<u8>, after: Seq<u8>)
    requires
        storable(v),
    ensures
        var_at(before + var_bytes(v) + after, before.len() as int) == Ok::<
            (Var, int),
            DecodeError,
        >((v, (before.len() + var_bytes(v).len()) as int)),
{
    reveal(var_bytes);
    let name = encode_utf8(v.0);
    let a = bytes16(low16(name.len()));
    let c = bytes32(low32(v.1.len()));
    let s = before + var_bytes(v) + after;
    let off = before.len() as int;
    four_parts(before, a, name, c, v.1, after);
    le16_reads_bytes16(s, off, low16(name.len()));
    le32_reads_bytes32(s, off + 2 + name.len(), low32(v.1.len()));
    encode_utf8_valid_utf8(v.0);
    encode_utf8_decode_utf8(v.0);
}

proof fn vars_read_back(vars: Seq<Var>, i: int, before: Seq<u8>, after: Seq<u8>)
    requires
        0 <= i <= vars.len(),
        forall|j: int| 0 <= j < vars.len() ==> storable(#[trigger] vars[j]),
    ensures
        vars_at(
            before + var_tail(vars, i) + after,
            before.len() as int,
            (vars.len() - i) as nat,
        ) == Ok::<(Seq<Var>, int), DecodeError>(
            (vars.skip(i), (before.len() + var_tail(vars, i).len()) as int),
        ),
    decreases vars.len() - i,
{
    let b = before + var_tail(vars, i) + after;
    if i == vars.len() {
        assert(vars.skip(i) =~= Seq::<Var>::empty());
    } else {
        let one = var_bytes(vars[i]);
        let rest = var_tail(vars, i + 1);
        assert(b =~= before + one + (rest + after));
        var_reads_back(vars[i], before, rest + after);
        let next = before + one;
        assert(b =~= next + rest + after);
        vars_read_back(vars, i + 1, next, after);
        assert(seq![vars[i]] + vars.skip(i + 1) =~= vars.skip(i));
    }
}

/// The fixed part of a file reads back as it was written.
proof fn fixed_reads_back(s: SnapshotView, rest: Seq<u8>)
    ensures
        ({
            let b = fixed_part(s) + rest;
            &&& fixed_part(s).len() == FIXED_LEN
            &&& b.take(8) == magic()
            &&& le32(b, 8) == VERSION
            &&& Timestamp::at(b, 12) == s.time
            &&& le32(b, 19) == low32(s.vars.len())
        }),
{
    reveal(fixed_part);
    let b = fixed_part(s) + rest;
    let time = s.time.bytes();
    let count = bytes32(low32(s.vars.len()));
    assert(b.take(8) =~= magic());
    assert(b.subrange(8, 12) =~= bytes32(VERSION));
    assert(b.subrange(12, 19) =~= time);
    assert(b.subrange(19, 23) =~= count);
    le32_reads_bytes32(b, 8, VERSION);
    s.time.reads_back(b, 12);
    le32_reads_bytes32(b, 19, low32(s.vars.len()));
}

/// A metadata section is found where it was written.
proof fn section_reads_back(before: Seq<u8>, meta: Seq<u8>)
    requires
        meta.len() <= u32::MAX,
    ensures
        meta_at(before + bytes32(low32(meta.len())) + meta, before.len() as int) == Ok::<
            Seq<Pair>,
            DecodeError,
        >(section_pairs(meta)),
{
    let count = bytes32(low32(meta.len()));
    let body = before + count + meta;
    let end = before.len() as int;
    assert(body.subrange(end, end + 4) =~= count);
    le32_reads_bytes32(body, end, low32(meta.len()));
    assert(body.subrange(end + 4, end + 4 + meta.len()) =~= meta);
}

/// A body with a checksum behind it is read as that body.
proof fn sealed_body_is_read(body: Seq<u8>)
    requires
        body.len() >= FIXED_LEN,
        body.take(8) == magic(),
        le32(body, 8) == VERSION,
    ensures
        file_says(sealed(body)) == body_says(body),
{
    let sum = bytes32(crc32_of(body));
    let file = body + sum;
    assert(file.take(file.len() - 4) =~= body);
    assert(file.subrange(file.len() - 4, file.len() as int) =~= sum);
    le32_reads_bytes32(file, file.len() - 4, crc32_of(body));
    assert(file.take(8) =~= body.take(8));
    same_le32(file, body, 8);
}

/// A snapshot that was saved reads back as it was: every variable, byte for
/// byte, in the order it was read.
///
/// Lengths and counts have to fit the fields that declare them, and the
/// metadata has to be of the kind that survives (see
/// [`metadata_round_trips`]).
pub proof fn snapshot_round_trips(s: SnapshotView)
    requires
        s.vars.len() <= u32::MAX,
        forall|j: int| 0 <= j < s.vars.len() ==> storable(#[trigger] s.vars[j]),
        s.meta.len() <= MAX_PAIRS,
        forall|i: int| 0 <= i < s.meta.len() ==> durable(#[trigger] s.meta[i]),
        meta_bytes(s.meta).len() <= u32::MAX,
    ensures
        file_says(sealed(snapshot_body(s))) == Ok::<SnapshotView, DecodeError>(s),
{
    let fixed = fixed_part(s);
    let vars = var_part(s.vars, s.vars.len());
    let meta = meta_bytes(s.meta);
    let count = bytes32(low32(meta.len()));
    let body = snapshot_body(s);
    fixed_reads_back(s, vars + count + meta);
    assert(body =~= fixed + (vars + count + meta));
    section_reads_back(fixed + vars, meta);
    var_part_splits(s.vars, s.vars.len());
    assert(vars + var_tail(s.vars, s.vars.len() as int) =~= vars);
    vars_read_back(s.vars, 0, fixed, count + meta);
    assert(fixed + vars + (count + meta) =~= body);
    assert(s.vars.skip(0) =~= s.vars);
    metadata_round_trips(s.meta);
    sealed_body_is_read(body);
}

/// Why a file is refused that was sealed and has byte `k` damaged since.
pub open spec fn damage(b: Seq<u8>, k: int) -> DecodeError {
    if k < 8 {
        DecodeError::BadMagic
    } else if k < 12 && !(1 <= le32(b, 8) <= VERSION) {
        DecodeError::UnsupportedVersion { found: le32(b, 8) }
    } else {
        DecodeError::BadChecksum {
            stored: le32(b, b.len() - 4),
            computed: crc32_of(b.take(b.len() - 4)),
        }
    }
}

proof fn damaged_file_is_refused(body: Seq<u8>, k: int, v: u8)
    requires
        body.len() >= FIXED_LEN,
        body.take(8) == magic(),
        le32(body, 8) == VERSION,
        0 <= k < sealed(body).len(),
        v != sealed(body)[k],
    ensures
        ({
            let b = sealed(body).update(k, v);
            file_says(b) == Err::<SnapshotView, DecodeError>(damage(b, k))
        }),
{
    let file = sealed(body);
    let b = file.update(k, v);
    damage_breaks_the_seal(body, k, v);
    assert(file.take(8) =~= body.take(8));
    if k < 8 {
        assert(b.take(8)[k] != file.take(8)[k]);
    } else {
        assert(b.take(8) =~= file.take(8));
    }
    if k >= 12 {
        assert(b.take(12) =~= body.take(12));
        same_le32(b, b.take(12), 8);
        same_le32(body, body.take(12), 8);
    }
}

/// A snapshot with any one byte damaged is refused, and never read as another
/// one: damage to the magic is named as such, a version that is not supported
/// too, and all other damage breaks the checksum.
pub proof fn a_damaged_byte_is_caught(s: SnapshotView, k: int, v: u8)
    requires
        0 <= k < sealed(snapshot_body(s)).len(),
        v != sealed(snapshot_body(s))[k],
    ensures
        ({
            let b = sealed(snapshot_body(s)).update(k, v);
            file_says(b) == Err::<SnapshotView, DecodeError>(damage(b, k))
        }),
{
    let rest = var_part(s.vars, s.vars.len()) + bytes32(low32(meta_bytes(s.meta).len()))
        + meta_bytes(s.meta);
    fixed_reads_back(s, rest);
    assert(snapshot_body(s) =~= fixed_part(s) + rest);
    damaged_file_is_refused(snapshot_body(s), k, v);
}

/// A snapshot with any one bit flipped is refused.
pub proof fn a_flipped_bit_is_caught(s: SnapshotView, k: int, bit: u8)
    requires
        0 <= k < sealed(snapshot_body(s)).len(),
        bit < 8,
    ensures
        ({
            let b = sealed(snapshot_body(s));
            file_says(b.update(k, b[k] ^ (1u8 << bit))) is Err
        }),
{
    let b = sealed(snapshot_body(s));
    a_flipped_bit_is_a_change(b[k], bit);
    a_damaged_byte_is_caught(s, k, b[k] ^ (1u8 << bit));
}

/// A file too short for its fixed part and a checksum is said to be so,
/// whatever it holds.
pub proof fn a_stub_is_too_short(b: Seq<u8>)
    requires
        b.len() < FIXED_LEN + 4,
    ensures
        file_says(b) == Err::<SnapshotView, DecodeError>(DecodeError::TooShort),
{
}

proof fn kept_are(vars: Seq<Var>, n: nat, entries: bool, k: int)
    requires
        n <= vars.len(),
        0 <= k < kept(vars, n, entries).len(),
    ensures
        writable(kept(vars, n, entries)[k].name),
        (slot_of_text(kept(vars, n, entries)[k].name) is Some) == entries,
        exists|i: int|
            0 <= i < n && #[trigger] vars[i] == (
                kept(vars, n, entries)[k].name,
                kept(vars, n, entries)[k].data,
            ),
    decreases n,
{
    let rest = kept(vars, (n - 1) as nat, entries);
    if k < rest.len() {
        kept_are(vars, (n - 1) as nat, entries, k);
    } else {
        let w = kept(vars, n, entries)[k];
        assert(vars[n - 1] == (w.name, w.data));
    }
}

/// Putting a snapshot back writes saved variables only, each as it was
/// saved, only names that may be written, and every entry before any
/// setting that could name it.
pub proof fn restoring_writes_only_what_was_saved(vars: Seq<Var>, k: int)
    requires
        0 <= k < restore_writes(vars).len(),
    ensures
        writable(restore_writes(vars)[k].name),
        exists|i: int|
            0 <= i < vars.len() && #[trigger] vars[i] == (
                restore_writes(vars)[k].name,
                restore_writes(vars)[k].data,
            ),
        slot_of_text(restore_writes(vars)[k].name) is None ==> forall|later: int|
            k <= later < restore_writes(vars).len() ==> slot_of_text(
                (#[trigger] restore_writes(vars)[later]).name,
            ) is None,
{
    let entries = kept(vars, vars.len(), true);
    let settings = kept(vars, vars.len(), false);
    if k < entries.len() {
        kept_are(vars, vars.len(), true, k);
    } else {
        kept_are(vars, vars.len(), false, k - entries.len());
        assert forall|later: int| k <= later < restore_writes(vars).len() implies slot_of_text(
            (#[trigger] restore_writes(vars)[later]).name,
        ) is None by {
            kept_are(vars, vars.len(), false, later - entries.len());
        }
    }
}

proof fn kept_is_a_filter(
    vars: Seq<Var>,
    n: nat,
    entries: bool,
    p: spec_fn(Var) -> bool,
    f: spec_fn(Var) -> VarWriteView,
)
    requires
        n <= vars.len(),
        forall|v: Var| #[trigger] p(v) == (writable(v.0) && (slot_of_text(v.0) is Some) == entries),
        forall|v: Var| #[trigger] f(v) == (VarWriteView { name: v.0, data: v.1 }),
    ensures
        kept(vars, n, entries) == vars.take(n as int).filter(p).map_values(f),
    decreases n,
{
    reveal(Seq::filter);
    let all = vars.take(n as int);
    if n > 0 {
        kept_is_a_filter(vars, (n - 1) as nat, entries, p, f);
        assert(all.drop_last() =~= vars.take(n - 1));
        let v = vars[n - 1];
        if p(v) {
            assert(all.filter(p).map_values(f) =~= all.drop_last().filter(p).map_values(f).push(
                f(v),
            ));
        }
    } else {
        assert(all.filter(p).map_values(f) =~= Seq::<VarWriteView>::empty());
    }
}

proof fn settings_are_three(name: Seq<char>)
    ensures
        writable(name) == (slot_of_text(name) is Some || name == "BootOrder"@ || name
            == "BootNext"@ || name == "Timeout"@),
{
    let all = crate::bootopt::setting_names();
    assert(all[0] == "BootOrder"@ && all[1] == "BootNext"@ && all[2] == "Timeout"@);
    if all.contains(name) {
        let i = choose|i: int| 0 <= i < all.len() && all[i] == name;
        assert(i == 0 || i == 1 || i == 2);
    }
}

/// Putting a snapshot back puts back everything it may: first every saved
/// entry, in the order saved, then every saved setting, each with the bytes it
/// was saved with.
pub proof fn restoring_puts_back_every_entry_and_setting(
    vars: Seq<Var>,
    is_entry: spec_fn(Var) -> bool,
    is_setting: spec_fn(Var) -> bool,
    as_saved: spec_fn(Var) -> VarWriteView,
)
    requires
        forall|v: Var| #[trigger] is_entry(v) == (slot_of_text(v.0) is Some),
        forall|v: Var| #[trigger]
            is_setting(v) == (slot_of_text(v.0) is None && (v.0 == "BootOrder"@ || v.0
                == "BootNext"@ || v.0 == "Timeout"@)),
        forall|v: Var| #[trigger] as_saved(v) == (VarWriteView { name: v.0, data: v.1 }),
    ensures
        restore_writes(vars) == vars.filter(is_entry).map_values(as_saved) + vars.filter(
            is_setting,
        ).map_values(as_saved),
{
    assert(vars.take(vars.len() as int) =~= vars);
    assert forall|v: Var| #[trigger] is_entry(v) == (writable(v.0) && (slot_of_text(v.0) is Some)
        == true) by {
        settings_are_three(v.0);
    }
    assert forall|v: Var| #[trigger] is_setting(v) == (writable(v.0) && (slot_of_text(
        v.0,
    ) is Some) == false) by {
        settings_are_three(v.0);
    }
    kept_is_a_filter(vars, vars.len(), true, is_entry, as_saved);
    kept_is_a_filter(vars, vars.len(), false, is_setting, as_saved);
}

/// Whatever was saved under a name that may be written is among the writes
/// that put the snapshot back, with its saved bytes.
pub proof fn no_saved_variable_is_left_out(vars: Seq<Var>, i: int)
    requires
        0 <= i < vars.len(),
        slot_of_text(vars[i].0) is Some || vars[i].0 == "BootOrder"@ || vars[i].0 == "BootNext"@
            || vars[i].0 == "Timeout"@,
    ensures
        exists|k: int|
            0 <= k < restore_writes(vars).len() && #[trigger] restore_writes(vars)[k] == (
            VarWriteView { name: vars[i].0, data: vars[i].1 }),
{
    let entries = kept(vars, vars.len(), true);
    let all = restore_writes(vars);
    let w = VarWriteView { name: vars[i].0, data: vars[i].1 };
    settings_are_three(vars[i].0);
    if slot_of_text(vars[i].0) is Some {
        let k = kept_holds(vars, vars.len(), true, i);
        assert(all[k] == w);
    } else {
        let k = kept_holds(vars, vars.len(), false, i);
        assert(all[entries.len() + k] == w);
    }
}

proof fn kept_holds(vars: Seq<Var>, n: nat, entries: bool, i: int) -> (k: int)
    requires
        0 <= i < n <= vars.len(),
        writable(vars[i].0),
        (slot_of_text(vars[i].0) is Some) == entries,
    ensures
        0 <= k < kept(vars, n, entries).len(),
        kept(vars, n, entries)[k] == (VarWriteView { name: vars[i].0, data: vars[i].1 }),
    decreases n,
{
    if i == n - 1 {
        (kept(vars, n, entries).len() - 1) as int
    } else {
        kept_holds(vars, (n - 1) as nat, entries, i)
    }
}


/// A saved variable is looked up by its name: it is the first one stored
/// under it, and there is none exactly where the name is nowhere.
pub proof fn a_variable_is_found_by_its_name(vars: Seq<Var>, name: Seq<char>, from: int)
    requires
        0 <= from <= vars.len(),
    ensures
        var_from(vars, name, from) is None <==> forall|i: int|
            from <= i < vars.len() ==> (#[trigger] vars[i]).0 != name,
        var_from(vars, name, from) matches Some(data) ==> exists|i: int|
            from <= i < vars.len() && #[trigger] vars[i] == (name, data) && forall|j: int|
                from <= j < i ==> (#[trigger] vars[j]).0 != name,
    decreases vars.len() - from,
{
    if from < vars.len() {
        if vars[from].0 == name {
            assert(vars[from] == (name, vars[from].1));
        } else {
            a_variable_is_found_by_its_name(vars, name, from + 1);
        }
    }
}

} // verus!
