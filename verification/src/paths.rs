//! Names and device paths as the firmware wants them.
//!
//! The firmware takes names in UCS-2 and device paths as a packed list of
//! nodes. Whether a text or a run of bytes is one of these is decided by the
//! `uefi` crate, which is also what hands it to the firmware.

use crate::bootdev::{nodes_of, Node, NodeView};
use crate::bytes::{copied, le16, rd_u16};
use crate::text::{content_of, dec, dec_text};
use crate::utf16::{encode16, is_high, is_low};
use uefi::proto::device_path::DevicePath;
use uefi::CString16;
use vstd::prelude::*;

verus! {

// -------------------------------------------------------------------- names

/// A text that is one UCS-2 unit per character, with no NUL in it.
pub open spec fn is_ucs2(text: Seq<char>) -> bool {
    forall|i: int|
        0 <= i < encode16(text).len() ==> {
            let unit = #[trigger] encode16(text)[i];
            unit != 0 && !is_high(unit) && !is_low(unit)
        }
}

/// `uefi::CString16::try_from(&str)`: it succeeds on exactly the texts whose
/// UTF-16 form holds neither a surrogate nor a NUL.
#[verifier::external_body]
fn converts_to_ucs2(text: &str) -> (r: bool)
    ensures
        r == is_ucs2(text@),
{
    CString16::try_from(text).is_ok()
}

/// Whether a name can be handed to the firmware, or what to say if it
/// cannot.
pub fn check_filename(name: &str) -> (r: Result<(), String>)
    ensures
        r is Ok == is_ucs2(name@),
        r matches Err(e) ==> e@ == name@ + " is not a usable filename"@,
{
    if converts_to_ucs2(name) {
        Ok(())
    } else {
        let mut s = name.to_owned();
        s.push_str(" is not a usable filename");
        Err(s)
    }
}

/// Whether a variable name can be handed to the firmware, or what to say if
/// it cannot.
pub fn check_variable_name(name: &str) -> (r: Result<(), String>)
    ensures
        r is Ok == is_ucs2(name@),
        r matches Err(e) ==> e@ == name@ + " is not a usable variable name"@,
{
    if converts_to_ucs2(name) {
        Ok(())
    } else {
        let mut s = name.to_owned();
        s.push_str(" is not a usable variable name");
        Err(s)
    }
}

// ------------------------------------------------------------- device paths

/// The node that ends a device path.
pub open spec fn ends_path(b: Seq<u8>, at: int) -> bool {
    b[at] == 0x7F && b[at + 1] == 0xFF
}

/// The nodes from `at` on, each as long as it says, lead to the one that
/// ends the path before the bytes run out.
pub open spec fn whole_path(b: Seq<u8>, at: int) -> bool
    decreases b.len() - at,
{
    let len = le16(b, at + 2);
    if at < 0 || at + 4 > b.len() || len < 4 || at + len > b.len() {
        false
    } else if ends_path(b, at) {
        true
    } else {
        whole_path(b, at + len)
    }
}

/// No node from `at` on, as far as they can be followed, claims to be
/// shorter than its own header.
pub open spec fn headers_fit(b: Seq<u8>, at: int) -> bool
    decreases b.len() - at,
{
    let len = le16(b, at + 2);
    if at < 0 || at + 4 > b.len() {
        true
    } else if len < 4 {
        false
    } else if at + len > b.len() || ends_path(b, at) {
        true
    } else {
        headers_fit(b, at + len)
    }
}

/// `<&uefi::proto::device_path::DevicePath>::try_from(&[u8])`: it succeeds
/// exactly where the nodes lead to an end node before the bytes run out. It
/// must not be given a node shorter than its header, whose length it
/// subtracts without a check.
#[verifier::external_body]
fn parses_as_path(bytes: &[u8]) -> (r: bool)
    requires
        headers_fit(bytes@, 0),
    ensures
        r == whole_path(bytes@, 0),
{
    <&DevicePath>::try_from(bytes).is_ok()
}

/// A path with a short header in it is not a whole one.
proof fn a_short_header_is_no_path(b: Seq<u8>, at: int)
    requires
        !headers_fit(b, at),
    ensures
        !whole_path(b, at),
    decreases b.len() - at,
{
    if at >= 0 && at + 4 <= b.len() && le16(b, at + 2) >= 4 {
        a_short_header_is_no_path(b, at + le16(b, at + 2));
    }
}

fn has_whole_headers(bytes: &[u8]) -> (r: bool)
    ensures
        r == headers_fit(bytes@, 0),
{
    let mut at: usize = 0;
    loop
        invariant
            at <= bytes@.len(),
            headers_fit(bytes@, 0) == headers_fit(bytes@, at as int),
        decreases bytes@.len() - at,
    {
        if bytes.len() - at < 4 {
            return true;
        }
        let len: usize = rd_u16(bytes, at + 2) as usize;
        if len < 4 {
            return false;
        }
        if bytes.len() - at < len || (bytes[at] == 0x7F && bytes[at + 1] == 0xFF) {
            return true;
        }
        at = at + len;
    }
}

/// Whether bytes are a device path the firmware can be asked to put into
/// words.
pub fn is_device_path(bytes: &[u8]) -> (r: bool)
    ensures
        r == whole_path(bytes@, 0),
{
    if !has_whole_headers(bytes) {
        proof {
            a_short_header_is_no_path(bytes@, 0);
        }
        return false;
    }
    parses_as_path(bytes)
}

/// The nodes from `at` on, up to the one that ends the path.
pub open spec fn nodes_in(b: Seq<u8>, at: int) -> Seq<NodeView>
    decreases b.len() - at,
{
    let len = le16(b, at + 2);
    if at < 0 || at + 4 > b.len() || len < 4 || at + len > b.len() || ends_path(b, at) {
        Seq::empty()
    } else {
        seq![NodeView { kind: b[at], sub: b[at + 1], data: b.subrange(at + 4, at + len) }]
            + nodes_in(b, at + len)
    }
}

/// The nodes of a device path, without the one that ends it, or `None` if
/// the bytes are not a device path.
pub fn path_nodes(bytes: &[u8]) -> (r: Option<Vec<Node>>)
    ensures
        r is Some == whole_path(bytes@, 0),
        r matches Some(v) ==> nodes_of(v@) == nodes_in(bytes@, 0),
{
    if !is_device_path(bytes) {
        return None;
    }
    let mut out: Vec<Node> = Vec::new();
    let mut at: usize = 0;
    assert(nodes_of(out@) =~= Seq::<NodeView>::empty());
    assert(Seq::<NodeView>::empty() + nodes_in(bytes@, 0) =~= nodes_in(bytes@, 0));
    while !(bytes[at] == 0x7F && bytes[at + 1] == 0xFF)
        invariant
            at + 4 <= bytes@.len(),
            whole_path(bytes@, at as int),
            nodes_of(out@) + nodes_in(bytes@, at as int) == nodes_in(bytes@, 0),
        decreases bytes@.len() - at,
    {
        let len: usize = rd_u16(bytes, at + 2) as usize;
        let data = copied(bytes, at + 4, at + len);
        let ghost before = nodes_of(out@);
        let ghost node = NodeView {
            kind: bytes@[at as int],
            sub: bytes@[at + 1],
            data: bytes@.subrange(at + 4, at + len),
        };
        out.push(Node { kind: bytes[at], sub: bytes[at + 1], data });
        assert(nodes_of(out@) =~= before.push(node));
        let ghost rest = nodes_in(bytes@, at + len);
        assert(nodes_in(bytes@, at as int) == seq![node] + rest);
        assert(before + (seq![node] + rest) =~= before.push(node) + rest);
        assert(whole_path(bytes@, at + len));
        at = at + len;
    }
    assert(nodes_of(out@) + Seq::<NodeView>::empty() =~= nodes_of(out@));
    Some(out)
}

/// What is said of a boot entry's device path without asking the firmware:
/// nothing where there is none, and that it is not one where it is not.
pub open spec fn path_note(b: Seq<u8>) -> Option<Seq<char>> {
    if b.len() == 0 {
        Some(Seq::empty())
    } else if whole_path(b, 0) {
        None
    } else {
        Some("<"@ + dec(b.len()) + " bytes that are not a device path>"@)
    }
}

/// What is said of a boot entry's device path without asking the firmware.
///
/// Distinguishes "there is no path" from "there is one and it will not
/// parse". The second is a finding, a truncated variable, and must not be
/// shown as a blank line. `None` means the firmware can be asked.
pub fn boot_path_note(bytes: &[u8]) -> (r: Option<String>)
    ensures
        content_of(r) == path_note(bytes@),
{
    if bytes.len() == 0 {
        let none = String::new();
        assert(none@ =~= Seq::<char>::empty());
        return Some(none);
    }
    if is_device_path(bytes) {
        return None;
    }
    let mut s = "<".to_owned();
    s.push_str(dec_text(bytes.len() as u64).as_str());
    s.push_str(" bytes that are not a device path>");
    Some(s)
}


/// A path is read node by node: what follows a whole node is a path exactly
/// if what starts with that node is, and its nodes are that one and then the
/// rest.
pub proof fn a_path_is_read_node_by_node(node: Seq<u8>, rest: Seq<u8>)
    requires
        4 <= node.len(),
        node.len() == le16(node, 2),
        !(node[0] == 0x7F && node[1] == 0xFF),
    ensures
        whole_path(node + rest, 0) == whole_path(rest, 0),
        nodes_in(node + rest, 0) == seq![
            NodeView { kind: node[0], sub: node[1], data: node.skip(4) },
        ] + nodes_in(rest, 0),
{
    let all = node + rest;
    let n = node.len() as int;
    reveal(le16);
    assert(all[2] == node[2] && all[3] == node[3]);
    assert(le16(all, 2) == le16(node, 2));
    assert(all[0] == node[0] && all[1] == node[1]);
    assert(all.subrange(4, n) =~= node.skip(4));
    assert(all.skip(n) =~= rest);
    read_from_there(all, n, 0);
}

proof fn read_from_there(all: Seq<u8>, n: int, at: int)
    requires
        0 <= n <= all.len(),
        0 <= at,
    ensures
        whole_path(all, n + at) == whole_path(all.skip(n), at),
        nodes_in(all, n + at) == nodes_in(all.skip(n), at),
    decreases all.len() - n - at,
{
    let rest = all.skip(n);
    reveal(le16);
    if at + 4 <= rest.len() {
        assert(rest[at] == all[n + at]);
        assert(rest[at + 1] == all[n + at + 1]);
        assert(rest[at + 2] == all[n + at + 2]);
        assert(rest[at + 2 + 1] == all[n + at + 2 + 1]);
        let len = le16(rest, at + 2);
        assert(le16(all, n + at + 2) == len);
        if len >= 4 && at + len <= rest.len() {
            read_from_there(all, n, at + len);
            assert(rest.subrange(at + 4, at + len) =~= all.subrange(n + at + 4, n + at + len));
        }
    }
}

/// A path ends at its end marker: nothing after it is read, and without one
/// there is no path.
pub proof fn a_path_ends_at_its_marker(rest: Seq<u8>, b: Seq<u8>)
    ensures
        whole_path(seq![0x7Fu8, 0xFFu8, 4u8, 0u8] + rest, 0),
        nodes_in(seq![0x7Fu8, 0xFFu8, 4u8, 0u8] + rest, 0).len() == 0,
        b.len() < 4 ==> !whole_path(b, 0),
        b.len() >= 4 && (le16(b, 2) < 4 || le16(b, 2) > b.len()) ==> !whole_path(b, 0),
        whole_path(b, 0) ==> path_note(b) is None,
        b.len() == 0 ==> path_note(b) == Some(Seq::<char>::empty()),
        b.len() > 0 && !whole_path(b, 0) ==> path_note(b) is Some,
{
    let all = seq![0x7Fu8, 0xFFu8, 4u8, 0u8] + rest;
    reveal(le16);
    assert(all[0] == 0x7F && all[1] == 0xFF && all[2] == 4 && all[3] == 0);
    assert(le16(all, 2) == 4);
}

} // verus!
