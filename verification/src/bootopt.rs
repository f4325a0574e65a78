//! The `Boot####` and `BootOrder` variable formats, and what to write when
//! changing them.
//!
//! A UEFI boot entry is an `EFI_LOAD_OPTION`: a fixed six-byte head, a
//! NUL-terminated UCS-2 description, a device path whose length the head
//! declares, and whatever the entry's creator left after it.
//!
//! Three of those four parts are variable-length and two of them are sized
//! by a number stored in the same buffer. A `Boot####` truncated by a
//! firmware that ran out of variable store will still parse as far as its
//! declared `FilePathListLength`, and will then describe a device path made
//! of whatever came next. Every boundary here is checked against the buffer
//! actually supplied.
//!
//! The device path is kept as **opaque bytes**. Rendering one needs the
//! firmware's own vocabulary of hardware, which the application has and
//! this library does not.
//!
//! Changes are planned as ordered lists of variable writes, for the same
//! reason a repair is: the ordering is the safety property, and an entry is
//! in the store before any order that names it.

use crate::bytes::{
    bytes16, bytes32, bytes16_of_le16, bytes32_of_le32, copied, le16, le16_reads_bytes16, le32,
    le32_reads_bytes32, put_bytes, put_u16, put_u32, rd_u16, rd_u32,
};
use crate::style::{
    add_line, dim, key, line, no_lines, shown, styled, title, Line, LineView, Style,
};
use crate::text::{
    add_name, dec, dec_text, digit, hex, hex_text, joined, joined_text, named, pad_left,
    pad_left_text, pad_right, pad_right_text, same_text, succ_text, texts_of,
};
use crate::utf16::{
    decode16, decode16_encode16, decode16_text, decoded_text_has_no_nul, encode16, encode16_units,
    encoded_text_has_no_nul, until_nul, until_nul_at, until_nul_within,
};
use vstd::prelude::*;
use vstd::utf8::{encode_utf8, is_ascii_chars, is_ascii_chars_encode_utf8};

verus! {

/// The entry is a candidate for booting. Firmware skips one without it.
pub const LOAD_OPTION_ACTIVE: u32 = 0x0000_0001;

/// Reconnect all drivers after loading, before transferring control.
pub const LOAD_OPTION_FORCE_RECONNECT: u32 = 0x0000_0002;

/// Present, bootable, but not to be offered in the firmware's own menu.
pub const LOAD_OPTION_HIDDEN: u32 = 0x0000_0008;

/// Which category field the entry declares.
pub const LOAD_OPTION_CATEGORY_MASK: u32 = 0x0000_1f00;

/// An application, not an OS loader: shown separately, never auto-booted.
pub const LOAD_OPTION_CATEGORY_APP: u32 = 0x0000_0100;

/// Attributes, FilePathListLength, and the description's terminator: the
/// least a well-formed load option can be.
pub const MIN_LEN: usize = 8;

/// One boot entry, decoded.
#[derive(Clone, PartialEq, Eq, Debug)]
pub struct LoadOption {
    pub attributes: u32,
    pub description: String,
    /// The FilePathList, verbatim. Never parsed here.
    pub device_path: Vec<u8>,
    /// Anything after the device path. Passed to the loaded image as its
    /// options; some loaders put a kernel command line here.
    pub optional_data: Vec<u8>,
}

/// A [`LoadOption`] as a value.
pub struct LoadOptionView {
    pub attributes: u32,
    pub description: Seq<char>,
    pub device_path: Seq<u8>,
    pub optional_data: Seq<u8>,
}

impl View for LoadOption {
    type V = LoadOptionView;

    open spec fn view(&self) -> LoadOptionView {
        LoadOptionView {
            attributes: self.attributes,
            description: self.description@,
            device_path: self.device_path@,
            optional_data: self.optional_data@,
        }
    }
}

impl LoadOption {
    /// The firmware will boot it.
    pub open spec fn active(self) -> bool {
        self.attributes & LOAD_OPTION_ACTIVE != 0
    }

    /// The firmware will not offer it.
    pub open spec fn hidden(self) -> bool {
        self.attributes & LOAD_OPTION_HIDDEN != 0
    }

    /// It is an application rather than an OS loader.
    pub open spec fn app(self) -> bool {
        self.attributes & LOAD_OPTION_CATEGORY_MASK == LOAD_OPTION_CATEGORY_APP
    }

    pub fn is_active(&self) -> (r: bool)
        ensures
            r == self.active(),
    {
        self.attributes & LOAD_OPTION_ACTIVE != 0
    }

    pub fn is_hidden(&self) -> (r: bool)
        ensures
            r == self.hidden(),
    {
        self.attributes & LOAD_OPTION_HIDDEN != 0
    }

    pub fn is_app(&self) -> (r: bool)
        ensures
            r == self.app(),
    {
        self.attributes & LOAD_OPTION_CATEGORY_MASK == LOAD_OPTION_CATEGORY_APP
    }

    /// How the entry should be styled in a list.
    ///
    /// An entry the firmware will not boot should not look like one it
    /// will, which is the only reason the flags are read at all here.
    pub fn style(&self) -> (r: Style)
        ensures
            r == if self.active() {
                Style::Normal
            } else {
                Style::Dim
            },
    {
        if self.is_active() {
            Style::Normal
        } else {
            Style::Dim
        }
    }
}

#[derive(Clone, Copy, PartialEq, Eq, Structural, Debug)]
pub enum DecodeError {
    /// Shorter than the fixed head plus an empty description.
    TooShort { len: usize },
    /// The description ran to the end of the buffer without a NUL.
    UnterminatedDescription,
    /// `FilePathListLength` names more bytes than the variable holds.
    PathOverruns { declared: usize, available: usize },
    /// A `BootOrder` whose length is not a whole number of `u16`.
    OddOrderLength { len: usize },
}

impl DecodeError {
    /// What the operator is told.
    pub open spec fn message(self) -> Seq<char> {
        match self {
            DecodeError::TooShort { len } => "truncated: "@ + dec(len as nat) + " bytes, at least "@
                + dec(MIN_LEN as nat) + " needed"@,
            DecodeError::UnterminatedDescription => "the description has no terminator"@,
            DecodeError::PathOverruns { declared, available } => "declares a "@ + dec(
                declared as nat,
            ) + "-byte device path but only "@ + dec(available as nat) + " bytes follow"@,
            DecodeError::OddOrderLength { len } => "boot order is "@ + dec(len as nat)
                + " bytes, which is not a whole number of entries"@,
        }
    }

    /// What the operator is told.
    pub fn to_text(&self) -> (r: String)
        ensures
            r@ == self.message(),
    {
        match *self {
            DecodeError::TooShort { len } => {
                let mut s = "truncated: ".to_owned();
                s.push_str(dec_text(len as u64).as_str());
                s.push_str(" bytes, at least ");
                s.push_str(dec_text(MIN_LEN as u64).as_str());
                s.push_str(" needed");
                s
            },
            DecodeError::UnterminatedDescription => "the description has no terminator".to_owned(),
            DecodeError::PathOverruns { declared, available } => {
                let mut s = "declares a ".to_owned();
                s.push_str(dec_text(declared as u64).as_str());
                s.push_str("-byte device path but only ");
                s.push_str(dec_text(available as u64).as_str());
                s.push_str(" bytes follow");
                s
            },
            DecodeError::OddOrderLength { len } => {
                let mut s = "boot order is ".to_owned();
                s.push_str(dec_text(len as u64).as_str());
                s.push_str(" bytes, which is not a whole number of entries");
                s
            },
        }
    }
}

// --------------------------------------------------------------- code units

/// The whole code units in `b`, little-endian.
pub open spec fn units_in(b: Seq<u8>) -> Seq<u16> {
    Seq::new(b.len() / 2, |i: int| le16(b, 2 * i))
}

/// `units` as little-endian bytes.
pub open spec fn unit_bytes(units: Seq<u16>) -> Seq<u8>
    decreases units.len(),
{
    if units.len() == 0 {
        Seq::empty()
    } else {
        unit_bytes(units.drop_last()) + bytes16(units.last())
    }
}

proof fn unit_bytes_len(units: Seq<u16>)
    ensures
        unit_bytes(units).len() == 2 * units.len(),
    decreases units.len(),
{
    if units.len() > 0 {
        unit_bytes_len(units.drop_last());
    }
}

/// Units survive being written and read back, whatever follows them.
proof fn units_read_back(units: Seq<u16>, rest: Seq<u8>, i: int)
    requires
        0 <= i < units.len(),
    ensures
        le16(unit_bytes(units) + rest, 2 * i) == units[i],
    decreases units.len(),
{
    let front = unit_bytes(units.drop_last());
    let last = bytes16(units.last());
    let b = unit_bytes(units) + rest;
    unit_bytes_len(units.drop_last());
    assert(b =~= front + (last + rest));
    if i == units.len() - 1 {
        assert(b.subrange(2 * i, 2 * i + 2) =~= last);
        le16_reads_bytes16(b, 2 * i, units[i]);
    } else {
        units_read_back(units.drop_last(), last + rest, i);
    }
}

/// Bytes survive being read as units and written back, if they are whole.
proof fn bytes_read_back(b: Seq<u8>, n: nat)
    requires
        2 * n <= b.len(),
    ensures
        unit_bytes(units_in(b).take(n as int)) == b.take(2 * n as int),
    decreases n,
{
    let units = units_in(b).take(n as int);
    if n > 0 {
        bytes_read_back(b, (n - 1) as nat);
        assert(units.drop_last() =~= units_in(b).take(n - 1));
        bytes16_of_le16(b, 2 * (n - 1));
        assert(b.take(2 * n as int) =~= b.take(2 * (n - 1)) + b.subrange(2 * (n - 1), 2 * n as int));
    } else {
        assert(b.take(0) =~= Seq::<u8>::empty());
    }
}

fn put_units(out: &mut Vec<u8>, units: &[u16])
    ensures
        final(out)@ == old(out)@ + unit_bytes(units@),
{
    let mut i: usize = 0;
    assert(out@ =~= old(out)@ + unit_bytes(units@.take(0)));
    while i < units.len()
        invariant
            i <= units.len(),
            out@ == old(out)@ + unit_bytes(units@.take(i as int)),
        decreases units.len() - i,
    {
        put_u16(out, units[i]);
        i += 1;
        assert(units@.take(i as int).drop_last() =~= units@.take(i - 1));
        assert(out@ =~= old(out)@ + unit_bytes(units@.take(i as int)));
    }
    assert(units@.take(i as int) =~= units@);
}

// ------------------------------------------------------------- boot entries

/// The units of the description region of a variable.
pub open spec fn description_region(b: Seq<u8>) -> Seq<u16> {
    units_in(b.skip(6))
}

/// What a `Boot####` variable says.
///
/// The description is scanned two bytes at a time from offset 6. A trailing
/// odd byte cannot be part of it and cannot be the terminator.
pub open spec fn option_says(b: Seq<u8>) -> Result<LoadOptionView, DecodeError> {
    let region = description_region(b);
    let text = until_nul(region);
    let after = 6 + 2 * (text.len() + 1);
    let declared = le16(b, 4) as int;
    if b.len() < MIN_LEN {
        Err(DecodeError::TooShort { len: b.len() as usize })
    } else if text.len() == region.len() {
        Err(DecodeError::UnterminatedDescription)
    } else if declared > b.len() - after {
        Err(
            DecodeError::PathOverruns {
                declared: declared as usize,
                available: (b.len() - after) as usize,
            },
        )
    } else {
        Ok(
            LoadOptionView {
                attributes: le32(b, 0),
                description: decode16(text),
                device_path: b.subrange(after as int, after + declared),
                optional_data: b.skip(after + declared),
            },
        )
    }
}

/// What decoding came to, as a value.
pub open spec fn decoded(r: Result<LoadOption, DecodeError>) -> Result<
    LoadOptionView,
    DecodeError,
> {
    match r {
        Ok(o) => Ok(o@),
        Err(e) => Err(e),
    }
}

/// Decode a `Boot####` variable.
pub fn decode(bytes: &[u8]) -> (r: Result<LoadOption, DecodeError>)
    ensures
        decoded(r) == option_says(bytes@),
{
    if bytes.len() < MIN_LEN {
        return Err(DecodeError::TooShort { len: bytes.len() });
    }
    let attributes: u32 = rd_u32(bytes, 0);
    let path_len: usize = rd_u16(bytes, 4) as usize;
    let rest = &bytes[6..bytes.len()];
    assert(rest@ =~= bytes@.skip(6));
    let ghost region = units_in(rest@);
    let units: usize = rest.len() / 2;
    let mut text: Vec<u16> = Vec::new();
    let mut end: usize = 0;
    while end < units && rd_u16(rest, 2 * end) != 0
        invariant
            end <= units,
            units == rest@.len() / 2,
            2 * units <= usize::MAX,
            region == units_in(rest@),
            text@ == region.take(end as int),
            forall|j: int| 0 <= j < end ==> region[j] != 0,
        decreases units - end,
    {
        text.push(rd_u16(rest, 2 * end));
        end += 1;
        assert(region.take(end as int) =~= region.take(end - 1).push(region[end - 1]));
    }
    proof {
        until_nul_at(region, end as int);
    }
    if end == units {
        return Err(DecodeError::UnterminatedDescription);
    }
    let description = decode16_text(text.as_slice());
    // Past the description and its terminator.
    let after: usize = 6 + (end + 1) * 2;
    let available: usize = bytes.len() - after;
    if path_len > available {
        return Err(DecodeError::PathOverruns { declared: path_len, available });
    }
    let device_path = copied(bytes, after, after + path_len);
    let optional_data = copied(bytes, after + path_len, bytes.len());
    assert(optional_data@ =~= bytes@.skip(after + path_len));
    Ok(LoadOption { attributes, description, device_path, optional_data })
}

/// The device path length that can be declared: saturated, so that it never
/// wraps to something plausible.
pub open spec fn declared_len(path: Seq<u8>) -> u16 {
    if path.len() <= u16::MAX {
        path.len() as u16
    } else {
        u16::MAX
    }
}

/// The bytes of a `Boot####` variable. The description is cut at the first
/// NUL.
pub open spec fn option_bytes(o: LoadOptionView) -> Seq<u8> {
    bytes32(o.attributes) + bytes16(declared_len(o.device_path)) + unit_bytes(
        until_nul(encode16(o.description)),
    ) + bytes16(0) + o.device_path.take(declared_len(o.device_path) as int) + o.optional_data
}

/// Encode a `Boot####` variable.
///
/// The inverse of [`decode`] for anything [`decode`] produced. A
/// description containing a NUL would encode a variable that decodes to a
/// shorter one, so the description is cut at the first NUL here rather than
/// silently producing a variable that does not round-trip.
pub fn encode(opt: &LoadOption) -> (r: Vec<u8>)
    ensures
        r@ == option_bytes(opt@),
{
    let mut out: Vec<u8> = Vec::new();
    put_u32(&mut out, opt.attributes);
    assert(out@ =~= bytes32(opt.attributes));
    let path_len: u16 = if opt.device_path.len() <= u16::MAX as usize {
        opt.device_path.len() as u16
    } else {
        u16::MAX
    };
    put_u16(&mut out, path_len);
    let units = encode16_units(opt.description.as_str());
    let mut end: usize = 0;
    while end < units.len() && units[end] != 0
        invariant
            end <= units.len(),
            forall|j: int| 0 <= j < end ==> units@[j] != 0,
        decreases units.len() - end,
    {
        end += 1;
    }
    proof {
        until_nul_at(units@, end as int);
    }
    assert(units@.subrange(0, end as int) =~= units@.take(end as int));
    put_units(&mut out, &units.as_slice()[0..end]);
    put_u16(&mut out, 0);
    let path = &opt.device_path.as_slice()[0..path_len as usize];
    assert(path@ =~= opt.device_path@.take(path_len as int));
    put_bytes(&mut out, path);
    put_bytes(&mut out, opt.optional_data.as_slice());
    out
}

// --------------------------------------------------------------- boot order

/// What a `BootOrder` variable says.
pub open spec fn order_says(b: Seq<u8>) -> Result<Seq<u16>, DecodeError> {
    if b.len() % 2 != 0 {
        Err(DecodeError::OddOrderLength { len: b.len() as usize })
    } else {
        Ok(units_in(b))
    }
}

/// Decode a `BootOrder` variable: a bare array of little-endian slots.
pub fn decode_order(bytes: &[u8]) -> (r: Result<Vec<u16>, DecodeError>)
    ensures
        match r {
            Ok(v) => order_says(bytes@) == Ok::<Seq<u16>, DecodeError>(v@),
            Err(e) => order_says(bytes@) == Err::<Seq<u16>, DecodeError>(e),
        },
{
    if bytes.len() % 2 != 0 {
        return Err(DecodeError::OddOrderLength { len: bytes.len() });
    }
    let mut out: Vec<u16> = Vec::new();
    let n: usize = bytes.len() / 2;
    let mut i: usize = 0;
    while i < n
        invariant
            i <= n,
            n == bytes@.len() / 2,
            2 * n <= usize::MAX,
            out@ == units_in(bytes@).take(i as int),
        decreases n - i,
    {
        out.push(rd_u16(bytes, 2 * i));
        i += 1;
        assert(units_in(bytes@).take(i as int) =~= units_in(bytes@).take(i - 1).push(
            units_in(bytes@)[i - 1],
        ));
    }
    assert(units_in(bytes@).take(i as int) =~= units_in(bytes@));
    Ok(out)
}

/// Encode a `BootOrder` variable.
pub fn encode_order(order: &[u16]) -> (r: Vec<u8>)
    ensures
        r@ == unit_bytes(order@),
{
    let mut out: Vec<u8> = Vec::new();
    put_units(&mut out, order);
    assert(out@ =~= unit_bytes(order@));
    out
}

// -------------------------------------------------------------- slots

/// `1` becomes `Boot0001`.
pub open spec fn slot_text(slot: u16) -> Seq<char> {
    "Boot"@ + hex(slot as nat, 4, true)
}

/// `1` becomes `Boot0001`.
pub fn slot_name(slot: u16) -> (r: String)
    ensures
        r@ == slot_text(slot),
{
    let mut s = "Boot".to_owned();
    s.push_str(hex_text(slot as u64, 4, true).as_str());
    s
}

/// The value of a hexadecimal digit.
pub open spec fn hex_value(b: u8) -> Option<int> {
    if 48 <= b <= 57 {
        Some(b - 48)
    } else if 65 <= b <= 70 {
        Some(b - 55)
    } else if 97 <= b <= 102 {
        Some(b - 87)
    } else {
        None
    }
}

/// The slot a variable name stands for.
pub open spec fn slot_in(name: Seq<u8>) -> Option<u16> {
    if name.len() == 8 && name.take(4) == seq![0x42u8, 0x6Fu8, 0x6Fu8, 0x74u8] {
        match (hex_value(name[4]), hex_value(name[5]), hex_value(name[6]), hex_value(name[7])) {
            (Some(a), Some(b), Some(c), Some(d)) => Some(
                (a * 0x1000 + b * 0x100 + c * 0x10 + d) as u16,
            ),
            _ => None,
        }
    } else {
        None
    }
}

/// The slot a variable name stands for.
pub open spec fn slot_of_text(name: Seq<char>) -> Option<u16> {
    slot_in(encode_utf8(name))
}

fn hex_digit(b: u8) -> (r: Option<u16>)
    ensures
        match r {
            Some(v) => v < 16 && hex_value(b) == Some(v as int),
            None => hex_value(b) is None,
        },
{
    if 48 <= b && b <= 57 {
        Some((b - 48) as u16)
    } else if 65 <= b && b <= 70 {
        Some((b - 55) as u16)
    } else if 97 <= b && b <= 102 {
        Some((b - 87) as u16)
    } else {
        None
    }
}

/// `Boot0001` becomes `1`, and anything else becomes `None`.
///
/// Strict on the way in as well as the way out. The variable store is
/// enumerated to find entries, so a lenient match here would sweep up
/// `BootOrder`, `BootNext` and `BootCurrent`, all of which begin `Boot`
/// and none of which is a load option.
pub fn parse_slot(name: &str) -> (r: Option<u16>)
    ensures
        r == slot_of_text(name@),
{
    let b = name.as_bytes();
    if b.len() != 8 {
        return None;
    }
    let prefixed = b[0] == 0x42 && b[1] == 0x6F && b[2] == 0x6F && b[3] == 0x74;
    assert(prefixed == (b@.take(4) =~= seq![0x42u8, 0x6Fu8, 0x6Fu8, 0x74u8]));
    if !prefixed {
        return None;
    }
    match (hex_digit(b[4]), hex_digit(b[5]), hex_digit(b[6]), hex_digit(b[7])) {
        (Some(a), Some(b), Some(c), Some(d)) => Some(a * 0x1000 + b * 0x100 + c * 0x10 + d),
        _ => None,
    }
}

/// Whether a slot is among those taken.
fn is_taken(taken: &[u16], slot: u16) -> (r: bool)
    ensures
        r == taken@.contains(slot),
{
    let mut i: usize = 0;
    while i < taken.len()
        invariant
            i <= taken.len(),
            forall|j: int| 0 <= j < i ==> taken@[j] != slot,
        decreases taken.len() - i,
    {
        if taken[i] == slot {
            assert(taken@[i as int] == slot);
            return true;
        }
        i += 1;
    }
    false
}

/// The lowest slot not in `taken`.
///
/// Deliberately unlike the snapshot naming in [`crate::backup::next_name`],
/// which counts up from the highest and never fills a gap. That rule exists
/// because reusing a *filename* would destroy a backup nobody can get back.
/// A freed boot slot holds nothing; firmware and `efibootmgr` both reuse the
/// lowest, and leaving holes would march entries towards `BootFFFF` for no
/// reason.
pub fn next_free_slot(taken: &[u16]) -> (r: Option<u16>)
    ensures
        match r {
            Some(s) => !taken@.contains(s) && forall|t: u16| t < s ==> #[trigger] taken@.contains(t),
            None => forall|t: u16| #[trigger] taken@.contains(t),
        },
{
    let mut slot: u16 = 0;
    loop
        invariant
            forall|t: u16| t < slot ==> #[trigger] taken@.contains(t),
        decreases u16::MAX - slot,
    {
        if !is_taken(taken, slot) {
            return Some(slot);
        }
        if slot == u16::MAX {
            return None;
        }
        slot += 1;
    }
}

// ---------------------------------------------------------------- rendering

/// One row in a list of entries.
pub open spec fn summary_text(slot: u16, active: bool, description: Seq<char>) -> Seq<char> {
    slot_text(slot) + (if active {
        "* "@
    } else {
        "  "@
    }) + description
}

/// One row in a list of entries.
///
/// `*` marks an active entry, which is efibootmgr's notation. Anyone with a
/// boot problem has already been told to run `efibootmgr -v` by a forum
/// thread, so matching what that prints costs nothing and saves explaining.
pub fn summary(slot: u16, opt: &LoadOption) -> (r: String)
    ensures
        r@ == summary_text(slot, opt.active(), opt.description@),
{
    let mut s = slot_name(slot);
    if opt.is_active() {
        s.push_str("* ");
    } else {
        s.push_str("  ");
    }
    s.push_str(opt.description.as_str());
    s
}

/// The flags of an entry worth reading.
pub open spec fn flag_names(o: LoadOption) -> Seq<Seq<char>> {
    named(!o.active(), "inactive"@) + named(o.hidden(), "hidden"@) + named(
        o.app(),
        "application"@,
    ) + named(o.attributes & LOAD_OPTION_FORCE_RECONNECT != 0, "force-reconnect"@)
}

/// The detail lines for one entry.
pub open spec fn flag_lines(o: LoadOption) -> Seq<LineView> {
    let flags: Seq<LineView> = if flag_names(o).len() > 0 {
        seq![styled("  ["@ + joined(flag_names(o), ", "@) + "]"@, Style::Normal)]
    } else {
        Seq::empty()
    };
    if o.optional_data@.len() > 0 {
        flags.push(
            styled(
                "  "@ + dec(o.optional_data@.len()) + " bytes of load options"@,
                Style::Dim,
            ),
        )
    } else {
        flags
    }
}

/// The detail lines for one entry, below its device path.
///
/// The device path itself is not rendered here. It is the one part of an
/// entry this library cannot turn into text, and it is long enough on real
/// hardware to need wrapping to the console width, which is knowledge this
/// library does not have either. The caller emits it and then appends these.
pub fn render_flags(opt: &LoadOption) -> (r: Vec<Line>)
    ensures
        shown(r@) == flag_lines(*opt),
{
    let mut out = no_lines();
    let mut flags: Vec<&'static str> = Vec::new();
    add_name(&mut flags, !opt.is_active(), "inactive");
    assert(texts_of(flags@) =~= named(!opt.active(), "inactive"@));
    add_name(&mut flags, opt.is_hidden(), "hidden");
    add_name(&mut flags, opt.is_app(), "application");
    add_name(
        &mut flags,
        opt.attributes & LOAD_OPTION_FORCE_RECONNECT != 0,
        "force-reconnect",
    );
    assert(texts_of(flags@) == flag_names(*opt));
    assert(flags@.len() == flag_names(*opt).len());
    if flags.len() > 0 {
        // Not dim: "inactive" is the answer to "why will it not boot?", and
        // is the one thing on this screen worth noticing.
        let mut s = "  [".to_owned();
        s.push_str(joined_text(flags.as_slice(), ", ").as_str());
        s.push_str("]");
        add_line(&mut out, line(s));
    }
    // Only worth a line when there is something in it. Most entries have
    // none, and a row of "0 bytes" would bury the ones that do.
    if opt.optional_data.len() > 0 {
        let mut s = "  ".to_owned();
        s.push_str(dec_text(opt.optional_data.len() as u64).as_str());
        s.push_str(" bytes of load options");
        add_line(&mut out, dim(s));
    }
    out
}

// ------------------------------------------------------------ changing them

/// One variable to write.
#[derive(Clone, PartialEq, Eq, Debug)]
pub struct VarWrite {
    pub name: String,
    pub data: Vec<u8>,
}

/// A [`VarWrite`] as a value.
pub struct VarWriteView {
    pub name: Seq<char>,
    pub data: Seq<u8>,
}

impl View for VarWrite {
    type V = VarWriteView;

    open spec fn view(&self) -> VarWriteView {
        VarWriteView { name: self.name@, data: self.data@ }
    }
}

/// Writes as values.
pub open spec fn var_writes_of(v: Seq<VarWrite>) -> Seq<VarWriteView> {
    Seq::new(v.len(), |i: int| v[i]@)
}

pub(crate) fn add_write(out: &mut Vec<VarWrite>, w: VarWrite)
    ensures
        var_writes_of(final(out)@) == var_writes_of(old(out)@).push(w@),
{
    out.push(w);
    assert(var_writes_of(out@) =~= var_writes_of(old(out)@).push(w@));
}

/// `order` with every occurrence of `slot` taken out.
pub open spec fn without(order: Seq<u16>, slot: u16) -> Seq<u16>
    decreases order.len(),
{
    if order.len() == 0 {
        Seq::empty()
    } else {
        let rest = without(order.drop_last(), slot);
        if order.last() == slot {
            rest
        } else {
            rest.push(order.last())
        }
    }
}

/// `order` with `slot` first and nowhere else.
pub open spec fn slot_first(slot: u16, order: Seq<u16>) -> Seq<u16> {
    seq![slot] + without(order, slot)
}

/// `order` with `slot` last and nowhere else.
pub open spec fn slot_last(slot: u16, order: Seq<u16>) -> Seq<u16> {
    without(order, slot).push(slot)
}

fn push_others(out: &mut Vec<u16>, slot: u16, order: &[u16])
    ensures
        final(out)@ == old(out)@ + without(order@, slot),
{
    let mut i: usize = 0;
    assert(out@ =~= old(out)@ + without(order@.take(0), slot));
    while i < order.len()
        invariant
            i <= order.len(),
            out@ == old(out)@ + without(order@.take(i as int), slot),
        decreases order.len() - i,
    {
        if order[i] != slot {
            out.push(order[i]);
        }
        i += 1;
        assert(order@.take(i as int).drop_last() =~= order@.take(i - 1));
        assert(out@ =~= old(out)@ + without(order@.take(i as int), slot));
    }
    assert(order@.take(i as int) =~= order@);
}

/// The order with `slot` moved, or added, to the front.
pub fn reorder(slot: u16, order: &[u16]) -> (r: Vec<u16>)
    ensures
        r@ == slot_first(slot, order@),
{
    let mut out: Vec<u16> = Vec::new();
    out.push(slot);
    assert(out@ =~= seq![slot]);
    push_others(&mut out, slot, order);
    out
}

/// The writes that register an entry: the entry itself, then the order that
/// names it.
pub open spec fn register_writes(slot: u16, o: LoadOptionView, order: Seq<u16>, first: bool) -> Seq<
    VarWriteView,
> {
    seq![
        VarWriteView { name: slot_text(slot), data: option_bytes(o) },
        VarWriteView {
            name: "BootOrder"@,
            data: unit_bytes(
                if first {
                    slot_first(slot, order)
                } else {
                    slot_last(slot, order)
                },
            ),
        },
    ]
}

/// What to write to register `opt` in `slot`.
///
/// The entry is in the store before anything points at it, and a slot
/// already in the order is moved rather than listed twice.
pub fn plan_register(slot: u16, opt: &LoadOption, order: &[u16], first: bool) -> (r: Vec<VarWrite>)
    ensures
        var_writes_of(r@) == register_writes(slot, opt@, order@, first),
{
    let after = if first {
        reorder(slot, order)
    } else {
        let mut out: Vec<u16> = Vec::new();
        push_others(&mut out, slot, order);
        assert(out@ =~= without(order@, slot));
        out.push(slot);
        out
    };
    let mut writes: Vec<VarWrite> = Vec::new();
    assert(var_writes_of(writes@) =~= Seq::<VarWriteView>::empty());
    add_write(&mut writes, VarWrite { name: slot_name(slot), data: encode(opt) });
    add_write(
        &mut writes,
        VarWrite { name: "BootOrder".to_owned(), data: encode_order(after.as_slice()) },
    );
    writes
}

/// What to write to make `slot` the default: only the order changes.
pub fn plan_set_default(slot: u16, order: &[u16]) -> (r: Vec<VarWrite>)
    ensures
        var_writes_of(r@) == seq![
            VarWriteView {
                name: "BootOrder"@,
                data: unit_bytes(slot_first(slot, order@)),
            },
        ],
{
    let after = reorder(slot, order);
    let mut writes: Vec<VarWrite> = Vec::new();
    assert(var_writes_of(writes@) =~= Seq::<VarWriteView>::empty());
    add_write(
        &mut writes,
        VarWrite { name: "BootOrder".to_owned(), data: encode_order(after.as_slice()) },
    );
    writes
}

/// What to write to boot `slot` once.
pub fn plan_boot_next(slot: u16) -> (r: Vec<VarWrite>)
    ensures
        var_writes_of(r@) == seq![VarWriteView { name: "BootNext"@, data: bytes16(slot) }],
{
    let mut data: Vec<u8> = Vec::new();
    put_u16(&mut data, slot);
    assert(data@ =~= bytes16(slot));
    let mut writes: Vec<VarWrite> = Vec::new();
    assert(var_writes_of(writes@) =~= Seq::<VarWriteView>::empty());
    add_write(&mut writes, VarWrite { name: "BootNext".to_owned(), data });
    writes
}

/// The settings of the boot process that are variables of their own: the
/// only ones, besides the entries, that are saved or written.
pub fn settings() -> (r: Vec<&'static str>)
    ensures
        texts_of(r@) == setting_names(),
{
    let r: Vec<&'static str> = vec!["BootOrder", "BootNext", "Timeout"];
    assert(texts_of(r@) =~= setting_names());
    r
}

/// The settings of the boot process that are variables of their own.
pub open spec fn setting_names() -> Seq<Seq<char>> {
    seq!["BootOrder"@, "BootNext"@, "Timeout"@]
}

/// A variable that may be written: a boot entry, or one of the settings.
pub open spec fn writable(name: Seq<char>) -> bool {
    slot_of_text(name) is Some || setting_names().contains(name)
}

/// Whether a variable may be written at all.
pub fn may_write(name: &str) -> (r: bool)
    ensures
        r == writable(name@),
{
    if parse_slot(name).is_some() {
        return true;
    }
    let names = settings();
    assert(texts_of(names@).len() == names@.len());
    let mut i: usize = 0;
    while i < names.len()
        invariant
            i <= names.len(),
            texts_of(names@) == setting_names(),
            forall|j: int| 0 <= j < i ==> setting_names()[j] != name@,
        decreases names.len() - i,
    {
        assert(texts_of(names@)[i as int] == names@[i as int]@);
        if same_text(names[i], name) {
            assert(setting_names()[i as int] == name@);
            return true;
        }
        i += 1;
    }
    assert(texts_of(names@).len() == names@.len());
    false
}

/// One line per write.
pub open spec fn write_lines(writes: Seq<VarWriteView>) -> Seq<LineView> {
    seq![styled("  Will write, in this order:"@, Style::Title)] + Seq::new(
        writes.len(),
        |i: int|
            styled(
                "    "@ + pad_right(writes[i].name, 10) + " ("@ + dec(writes[i].data.len())
                    + " bytes)"@,
                Style::Key,
            ),
    )
}

/// Exactly which variables will be written, in order.
pub fn render_plan(writes: &[VarWrite]) -> (r: Vec<Line>)
    ensures
        shown(r@) == write_lines(var_writes_of(writes@)),
{
    let mut out = no_lines();
    add_line(&mut out, title("  Will write, in this order:"));
    let ghost head = shown(out@);
    let ghost all = var_writes_of(writes@);
    let mut i: usize = 0;
    assert(head =~= seq![styled("  Will write, in this order:"@, Style::Title)]);
    assert(write_lines(all.take(0)) =~= head);
    while i < writes.len()
        invariant
            i <= writes.len(),
            all == var_writes_of(writes@),
            shown(out@) == write_lines(all.take(i as int)),
        decreases writes.len() - i,
    {
        let mut s = "    ".to_owned();
        s.push_str(pad_right_text(writes[i].name.as_str(), 10).as_str());
        s.push_str(" (");
        s.push_str(dec_text(writes[i].data.len() as u64).as_str());
        s.push_str(" bytes)");
        add_line(&mut out, key(s));
        i += 1;
        assert(shown(out@) =~= write_lines(all.take(i as int)));
    }
    assert(all.take(i as int) =~= all);
    out
}

/// One row of the order as it will be.
pub open spec fn order_row(before: Seq<u16>, after: Seq<u16>, i: int, name: Seq<char>) -> LineView {
    styled(
        "    "@ + pad_left(dec((i + 1) as nat), 2, ' ') + ". "@ + name,
        if i < before.len() && before[i] == after[i] {
            Style::Normal
        } else {
            Style::Key
        },
    )
}

/// A row that calls the slot by a name that `name` gives it.
pub open spec fn row_by<F: Fn(u16) -> String>(
    name: F,
    before: Seq<u16>,
    after: Seq<u16>,
    i: int,
    row: LineView,
) -> bool {
    exists|text: String|
        call_ensures(name, (after[i],), text) && row == #[trigger] order_row(
            before,
            after,
            i,
            text@,
        )
}

/// The order as it will be, rather than the edit that leads to it. `name`
/// gives what a slot is called; rows that change are marked.
pub fn render_order_change<F: Fn(u16) -> String>(before: &[u16], after: &[u16], name: F) -> (r: Vec<
    Line,
>)
    requires
        forall|slot: u16| call_requires(name, (slot,)),
    ensures
        r@.len() == after@.len() + 1,
        r@[0]@ == styled("  Boot order after:"@, Style::Title),
        forall|i: int|
            0 <= i < after@.len() ==> #[trigger] row_by(name, before@, after@, i, r@[i + 1]@),
{
    let mut out: Vec<Line> = Vec::new();
    out.push(title("  Boot order after:"));
    let mut i: usize = 0;
    while i < after.len()
        invariant
            i <= after.len(),
            out@.len() == i + 1,
            out@[0]@ == styled("  Boot order after:"@, Style::Title),
            forall|slot: u16| call_requires(name, (slot,)),
            forall|j: int|
                0 <= j < i ==> #[trigger] row_by(name, before@, after@, j, out@[j + 1]@),
        decreases after.len() - i,
    {
        let text: String = name(after[i]);
        let mut s = "    ".to_owned();
        s.push_str(pad_left_text(succ_text(i as u64).as_str(), 2, ' ').as_str());
        s.push_str(". ");
        s.push_str(text.as_str());
        let style = if i < before.len() && before[i] == after[i] {
            Style::Normal
        } else {
            Style::Key
        };
        let row = Line::new(s, style);
        assert(row@ == order_row(before@, after@, i as int, text@));
        let ghost rows = out@;
        out.push(row);
        assert forall|j: int| 0 <= j < i + 1 implies #[trigger] row_by(
            name,
            before@,
            after@,
            j,
            out@[j + 1]@,
        ) by {
            if j < i {
                assert(out@[j + 1] == rows[j + 1]);
                assert(row_by(name, before@, after@, j, rows[j + 1]@));
            }
        }
        i += 1;
    }
    out
}

// --------------------------------------------------------------------- laws

/// Where the parts of a written entry stand.
proof fn written_parts(o: LoadOptionView)
    requires
        !o.description.contains('\0'),
    ensures
        ({
            let b = option_bytes(o);
            let text = encode16(o.description);
            let path = o.device_path.take(declared_len(o.device_path) as int);
            let after = 6 + 2 * (text.len() + 1);
            &&& le32(b, 0) == o.attributes
            &&& le16(b, 4) == declared_len(o.device_path)
            &&& b.len() == after + path.len() + o.optional_data.len()
            &&& until_nul(description_region(b)) == text
            &&& text.len() < description_region(b).len()
            &&& b.skip(after as int) == path + o.optional_data
        }),
{
    let b = option_bytes(o);
    let text = encode16(o.description);
    let attrs = bytes32(o.attributes);
    let len = bytes16(declared_len(o.device_path));
    let path = o.device_path.take(declared_len(o.device_path) as int);
    let tail = path + o.optional_data;
    let after = 6 + 2 * (text.len() + 1);
    encoded_text_has_no_nul(o.description);
    until_nul_at(text, text.len() as int);
    assert(text.take(text.len() as int) =~= text);
    unit_bytes_len(text);
    assert(b =~= attrs + (len + (unit_bytes(text) + bytes16(0) + tail)));
    assert(b.subrange(0, 4) =~= attrs);
    le32_reads_bytes32(b, 0, o.attributes);
    assert(b.subrange(4, 6) =~= len);
    le16_reads_bytes16(b, 4, declared_len(o.device_path));
    let units = text.push(0u16);
    assert(units.drop_last() =~= text);
    unit_bytes_len(units);
    assert(b.skip(6) =~= unit_bytes(units) + tail);
    let region = description_region(b);
    assert forall|j: int| 0 <= j < units.len() implies region[j] == units[j] by {
        units_read_back(units, tail, j);
    }
    assert forall|j: int| 0 <= j < text.len() implies region[j] != 0 by {
        assert(region[j] == units[j]);
    }
    assert(region[text.len() as int] == units[text.len() as int]);
    until_nul_at(region, text.len() as int);
    assert(region.take(text.len() as int) =~= text);
    assert(b.skip(after as int) =~= tail);
}

/// An entry survives being written and read back, provided its description
/// holds no NUL and its device path fits the field that declares it.
pub proof fn written_entry_reads_back(o: LoadOptionView)
    requires
        !o.description.contains('\0'),
        o.device_path.len() <= u16::MAX,
    ensures
        option_says(option_bytes(o)) == Ok::<LoadOptionView, DecodeError>(o),
{
    let b = option_bytes(o);
    let after = 6 + 2 * (encode16(o.description).len() + 1);
    written_parts(o);
    decode16_encode16(o.description);
    let path = o.device_path.take(declared_len(o.device_path) as int);
    assert(path =~= o.device_path);
    let tail = b.skip(after as int);
    assert(b.subrange(after as int, (after + path.len()) as int) =~= tail.take(path.len() as int));
    assert(tail.take(path.len() as int) =~= path);
    assert(b.skip((after + path.len()) as int) =~= tail.skip(path.len() as int));
    assert(tail.skip(path.len() as int) =~= o.optional_data);
}

/// Anything that was decoded survives being written and read back.
pub proof fn decoded_entry_survives(b: Seq<u8>, o: LoadOptionView)
    requires
        option_says(b) == Ok::<LoadOptionView, DecodeError>(o),
    ensures
        option_says(option_bytes(o)) == Ok::<LoadOptionView, DecodeError>(o),
{
    let text = until_nul(description_region(b));
    until_nul_within(description_region(b));
    decoded_text_has_no_nul(text);
    written_entry_reads_back(o);
}

/// A variable is written back byte for byte as it was read, provided its
/// description is well-formed UTF-16.
pub proof fn entry_is_written_back_verbatim(b: Seq<u8>, o: LoadOptionView)
    requires
        option_says(b) == Ok::<LoadOptionView, DecodeError>(o),
        encode16(o.description) == until_nul(description_region(b)),
    ensures
        option_bytes(o) == b,
{
    let rest = b.skip(6);
    let region = description_region(b);
    let text = until_nul(region);
    let after = 6 + 2 * (text.len() + 1);
    let declared = le16(b, 4) as int;
    until_nul_within(region);
    until_nul_at(text, text.len() as int);
    assert(text.take(text.len() as int) =~= text);
    bytes_read_back(rest, text.len());
    bytes_read_back(rest, text.len() + 1);
    assert(region.take(text.len() as int + 1).drop_last() =~= text);
    assert(unit_bytes(region.take(text.len() as int + 1)) == unit_bytes(text) + bytes16(0));
    bytes32_of_le32(b, 0);
    bytes16_of_le16(b, 4);
    assert(o.device_path.take(declared) =~= o.device_path);
    assert(b.subrange(0, 4) + b.subrange(4, 6) + rest.take(2 * (text.len() as int + 1))
        + b.subrange(after as int, after + declared) + b.skip(after + declared) =~= b);
    assert(option_bytes(o) =~= b.subrange(0, 4) + b.subrange(4, 6) + (unit_bytes(text) + bytes16(
        0,
    )) + b.subrange(after as int, after + declared) + b.skip(after + declared));
}

/// An order survives being written and read back.
pub proof fn written_order_reads_back(order: Seq<u16>)
    ensures
        order_says(unit_bytes(order)) == Ok::<Seq<u16>, DecodeError>(order),
{
    let b = unit_bytes(order);
    unit_bytes_len(order);
    assert forall|i: int| 0 <= i < order.len() implies units_in(b)[i] == order[i] by {
        units_read_back(order, Seq::empty(), i);
        assert(b + Seq::<u8>::empty() =~= b);
    }
    assert(units_in(b) =~= order);
}

/// A name made from a slot stands for that slot.
pub proof fn slot_name_reads_back(slot: u16)
    ensures
        slot_of_text(slot_text(slot)) == Some(slot),
{
    let n = slot as nat;
    let name = slot_text(slot);
    reveal_strlit("Boot");
    reveal_with_fuel(hex, 5);
    let a = n / 16 / 16 / 16 % 16;
    let b = n / 16 / 16 % 16;
    let c = n / 16 % 16;
    let d = n % 16;
    assert(hex(n, 4, true) =~= seq![digit(a, true), digit(b, true), digit(c, true), digit(d, true)]);
    assert(name =~= seq![
        'B',
        'o',
        'o',
        't',
        digit(a, true),
        digit(b, true),
        digit(c, true),
        digit(d, true),
    ]);
    assert(is_ascii_chars(name));
    is_ascii_chars_encode_utf8(name);
    let bytes = encode_utf8(name);
    assert(bytes.take(4) =~= seq![0x42u8, 0x6Fu8, 0x6Fu8, 0x74u8]);
    assert(bytes[4] == digit(a, true) as u8);
    assert(bytes[5] == digit(b, true) as u8);
    assert(bytes[6] == digit(c, true) as u8);
    assert(bytes[7] == digit(d, true) as u8);
    assert(a * 0x1000 + b * 0x100 + c * 0x10 + d == n);
}

proof fn without_holds(order: Seq<u16>, slot: u16)
    ensures
        !without(order, slot).contains(slot),
        forall|s: u16| s != slot ==> (without(order, slot).contains(s) <==> order.contains(s)),
        order.no_duplicates() ==> without(order, slot).no_duplicates(),
        !order.contains(slot) ==> without(order, slot) == order,
    decreases order.len(),
{
    if order.len() > 0 {
        let front = order.drop_last();
        let rest = without(front, slot);
        without_holds(front, slot);
        assert(order =~= front.push(order.last()));
        assert forall|s: u16| order.contains(s) <==> front.contains(s) || s == order.last() by {
            if front.contains(s) {
                let i = choose|i: int| 0 <= i < front.len() && front[i] == s;
                assert(order[i] == s);
            }
            if s == order.last() {
                assert(order[order.len() - 1] == s);
            }
            if order.contains(s) && s != order.last() {
                let i = choose|i: int| 0 <= i < order.len() && order[i] == s;
                assert(front[i] == s);
            }
        }
        assert forall|s: u16|
            rest.push(order.last()).contains(s) <==> rest.contains(s) || s == order.last() by {
            let more = rest.push(order.last());
            if rest.contains(s) {
                let i = choose|i: int| 0 <= i < rest.len() && rest[i] == s;
                assert(more[i] == s);
            }
            if s == order.last() {
                assert(more[rest.len() as int] == s);
            }
            if more.contains(s) && s != order.last() {
                let i = choose|i: int| 0 <= i < more.len() && more[i] == s;
                assert(rest[i] == s);
            }
        }
        if order.no_duplicates() {
            assert(front.no_duplicates());
            assert(!front.contains(order.last())) by {
                if front.contains(order.last()) {
                    let i = choose|i: int| 0 <= i < front.len() && front[i] == order.last();
                    assert(order[i] == order[order.len() - 1]);
                }
            }
        }
    }
}

/// Moving a slot to the front puts it there and nowhere else, keeps every
/// other slot, lists none twice that was not, and doing so again changes
/// nothing.
pub proof fn moving_to_the_front_loses_nothing(slot: u16, order: Seq<u16>)
    ensures
        slot_first(slot, order)[0] == slot,
        !slot_first(slot, order).skip(1).contains(slot),
        forall|s: u16| s != slot ==> (slot_first(slot, order).contains(s) <==> order.contains(s)),
        order.no_duplicates() ==> slot_first(slot, order).no_duplicates(),
        slot_first(slot, slot_first(slot, order)) == slot_first(slot, order),
{
    let rest = without(order, slot);
    let all = slot_first(slot, order);
    without_holds(order, slot);
    assert(all.skip(1) =~= rest);
    assert forall|s: u16| s != slot implies (all.contains(s) <==> rest.contains(s)) by {
        if rest.contains(s) {
            let i = choose|i: int| 0 <= i < rest.len() && rest[i] == s;
            assert(all[i + 1] == s);
        }
        if all.contains(s) {
            let i = choose|i: int| 0 <= i < all.len() && all[i] == s;
            assert(rest[i - 1] == s);
        }
    }
    if order.no_duplicates() {
        assert forall|i: int, j: int| 0 <= i < j < all.len() implies all[i] != all[j] by {
            assert(all[j] == rest[j - 1]);
            assert(rest.contains(rest[j - 1]));
            if i > 0 {
                assert(all[i] == rest[i - 1]);
            }
        }
    }
    without_of_front(slot, rest);
}

/// Taking out a slot that stands in front.
proof fn without_of_front(slot: u16, rest: Seq<u16>)
    requires
        !rest.contains(slot),
    ensures
        without(seq![slot] + rest, slot) == rest,
    decreases rest.len(),
{
    let all = seq![slot] + rest;
    if rest.len() == 0 {
        assert(all =~= seq![slot]);
        assert(all.drop_last() =~= Seq::<u16>::empty());
        assert(without(Seq::<u16>::empty(), slot) =~= Seq::<u16>::empty());
        assert(all.last() == slot);
        assert(rest =~= Seq::<u16>::empty());
    } else {
        let front = rest.drop_last();
        assert(all.drop_last() =~= seq![slot] + front);
        assert(rest.contains(rest.last()));
        assert(!front.contains(slot)) by {
            if front.contains(slot) {
                let i = choose|i: int| 0 <= i < front.len() && front[i] == slot;
                assert(rest[i] == slot);
            }
        }
        without_of_front(slot, front);
        assert(front.push(rest.last()) =~= rest);
    }
}

/// Registering an entry never leaves an order that names an entry not yet
/// in the store: the entry is the first write, the order the second, and
/// the order names the slot exactly once.
pub proof fn an_entry_is_written_before_the_order_naming_it(
    slot: u16,
    o: LoadOptionView,
    order: Seq<u16>,
    first: bool,
)
    ensures
        register_writes(slot, o, order, first).len() == 2,
        register_writes(slot, o, order, first)[0].name == slot_text(slot),
        register_writes(slot, o, order, first)[1].name == "BootOrder"@,
        ({
            let after = if first {
                slot_first(slot, order)
            } else {
                slot_last(slot, order)
            };
            &&& order_says(register_writes(slot, o, order, first)[1].data) == Ok::<
                Seq<u16>,
                DecodeError,
            >(after)
            &&& after.contains(slot)
            &&& forall|s: u16| s != slot ==> (after.contains(s) <==> order.contains(s))
            &&& order.no_duplicates() ==> after.no_duplicates()
        }),
{
    let rest = without(order, slot);
    without_holds(order, slot);
    if first {
        moving_to_the_front_loses_nothing(slot, order);
        assert(slot_first(slot, order)[0] == slot);
        written_order_reads_back(slot_first(slot, order));
    } else {
        let after = slot_last(slot, order);
        written_order_reads_back(after);
        assert(after[rest.len() as int] == slot);
        assert forall|s: u16| s != slot implies (after.contains(s) <==> rest.contains(s)) by {
            if rest.contains(s) {
                let i = choose|i: int| 0 <= i < rest.len() && rest[i] == s;
                assert(after[i] == s);
            }
            if after.contains(s) {
                let i = choose|i: int| 0 <= i < after.len() && after[i] == s;
                assert(rest[i] == s);
            }
        }
    }
}

proof fn without_is_a_filter(order: Seq<u16>, slot: u16, others: spec_fn(u16) -> bool)
    requires
        forall|s: u16| #[trigger] others(s) == (s != slot),
    ensures
        without(order, slot) == order.filter(others),
    decreases order.len(),
{
    reveal(Seq::filter);
    if order.len() > 0 {
        without_is_a_filter(order.drop_last(), slot, others);
    }
}

/// Moving a slot leaves all the others in the order they were in: the
/// firmware tries them one after the other as before.
pub proof fn moving_a_slot_leaves_the_others_in_order(
    slot: u16,
    order: Seq<u16>,
    others: spec_fn(u16) -> bool,
)
    requires
        forall|s: u16| #[trigger] others(s) == (s != slot),
    ensures
        slot_first(slot, order) == seq![slot] + order.filter(others),
        slot_last(slot, order) == order.filter(others) + seq![slot],
{
    without_is_a_filter(order, slot, others);
    assert(slot_last(slot, order) =~= order.filter(others) + seq![slot]);
}

/// Registering an entry writes it under its slot's name and then an order that
/// begins, or ends, with that slot and has all the others as they were.
pub proof fn registering_adds_one_slot_to_the_order(
    slot: u16,
    o: LoadOptionView,
    order: Seq<u16>,
    first: bool,
    others: spec_fn(u16) -> bool,
)
    requires
        forall|s: u16| #[trigger] others(s) == (s != slot),
    ensures
        ({
            let w = register_writes(slot, o, order, first);
            &&& w.len() == 2
            &&& slot_of_text(w[0].name) == Some(slot)
            &&& w[0].data == option_bytes(o)
            &&& w[1].name == "BootOrder"@
            &&& order_says(w[1].data) == Ok::<Seq<u16>, DecodeError>(
                if first {
                    seq![slot] + order.filter(others)
                } else {
                    order.filter(others) + seq![slot]
                },
            )
        }),
{
    slot_name_reads_back(slot);
    moving_a_slot_leaves_the_others_in_order(slot, order, others);
    written_order_reads_back(slot_first(slot, order));
    written_order_reads_back(slot_last(slot, order));
}

/// Where the firmware looks in an entry: the attributes in the first four
/// bytes, the length of the device path in the next two, then the description
/// up to a NUL, the device path, and the rest.
pub proof fn an_entry_is_laid_out_for_the_firmware(o: LoadOptionView)
    requires
        !o.description.contains('\0'),
        o.device_path.len() <= u16::MAX,
    ensures
        ({
            let b = option_bytes(o);
            let text = encode16(o.description);
            let after = 8 + 2 * text.len();
            &&& le32(b, 0) == o.attributes
            &&& le16(b, 4) == o.device_path.len()
            &&& b.len() == after + o.device_path.len() + o.optional_data.len()
            &&& forall|i: int| 0 <= i < text.len() ==> #[trigger] text[i] == le16(b, 6 + 2 * i)
            &&& le16(b, 6 + 2 * text.len() as int) == 0
            &&& b.subrange(after as int, (after + o.device_path.len()) as int) == o.device_path
            &&& b.skip((after + o.device_path.len()) as int) == o.optional_data
        }),
{
    let b = option_bytes(o);
    let text = encode16(o.description);
    let region = description_region(b);
    let after = 8 + 2 * text.len() as int;
    written_parts(o);
    until_nul_within(region);
    assert forall|i: int| 0 <= i <= text.len() implies region[i] == le16(b, 6 + 2 * i) by {
        reveal(le16);
    }
    assert(o.device_path.take(o.device_path.len() as int) =~= o.device_path);
    let n = o.device_path.len() as int;
    assert(b.subrange(after, after + n) =~= b.skip(after).take(n));
    assert(b.skip(after).take(n) =~= o.device_path);
    assert(b.skip(after + n) =~= b.skip(after).skip(n));
    assert(b.skip(after).skip(n) =~= o.optional_data);
    assert forall|i: int| 0 <= i < text.len() implies #[trigger] text[i] == le16(b, 6 + 2 * i) by {
        assert(region[i] == until_nul(region)[i]);
    }
}

/// An entry that decoded says what its bytes say: the attributes, a device
/// path of the declared length right behind the description's NUL, and
/// whatever follows it.
pub proof fn a_decoded_entry_is_what_the_bytes_say(b: Seq<u8>, o: LoadOptionView)
    requires
        option_says(b) == Ok::<LoadOptionView, DecodeError>(o),
    ensures
        o.attributes == le32(b, 0),
        o.device_path.len() == le16(b, 4),
        exists|n: int|
            0 <= n && 8 + 2 * n <= b.len() && #[trigger] le16(b, 6 + 2 * n) == 0 && (forall|i: int|
                0 <= i < n ==> #[trigger] le16(b, 6 + 2 * i) != 0) && b.skip(8 + 2 * n)
                == o.device_path + o.optional_data,
{
    let region = description_region(b);
    let text = until_nul(region);
    let n = text.len() as int;
    until_nul_within(region);
    assert forall|i: int| 0 <= i < region.len() implies region[i] == le16(b, 6 + 2 * i) by {
        reveal(le16);
    }
    assert forall|i: int| 0 <= i < n implies #[trigger] le16(b, 6 + 2 * i) != 0 by {
        assert(text[i] == region[i]);
    }
    assert(region[n] == 0);
    assert(le16(b, 6 + 2 * n) == 0);
    assert(b.skip(8 + 2 * n) =~= o.device_path + o.optional_data);
}

/// Only boot entries and the three settings of the boot process are ever
/// written; the variables that hold keys, and everything else, are not.
pub proof fn only_boot_variables_are_writable(name: Seq<char>)
    ensures
        writable(name) <==> slot_of_text(name) is Some || name == "BootOrder"@ || name
            == "BootNext"@ || name == "Timeout"@,
{
    let all = setting_names();
    assert(all[0] == "BootOrder"@ && all[1] == "BootNext"@ && all[2] == "Timeout"@);
    if all.contains(name) {
        let i = choose|i: int| 0 <= i < all.len() && all[i] == name;
        assert(i == 0 || i == 1 || i == 2);
    }
}

/// A name stands for a slot only if it is `Boot` and four hexadecimal digits,
/// and then for the number they spell.
pub proof fn a_slot_name_is_boot_and_four_digits(name: Seq<char>)
    ensures
        slot_of_text(name) matches Some(slot) ==> {
            let b = encode_utf8(name);
            &&& b.len() == 8
            &&& b[0] == 0x42 && b[1] == 0x6F && b[2] == 0x6F && b[3] == 0x74
            &&& forall|i: int|
                4 <= i < 8 ==> 48 <= #[trigger] b[i] <= 57 || 65 <= b[i] <= 70 || 97 <= b[i] <= 102
        },
{
    let b = encode_utf8(name);
    if slot_of_text(name) is Some {
        assert(b.take(4)[0] == b[0] && b.take(4)[1] == b[1] && b.take(4)[2] == b[2] && b.take(4)[3]
            == b[3]);
    }
}

} // verus!
