//! What was true when a snapshot was taken, for whoever reads it later.
//!
//! None of this is needed to restore a file. It is here for the question
//! asked years afterwards: is this from this machine, and what was it?

use crate::backup::Timestamp;
use crate::bootcfg::{vars_of, Snapshot, SnapshotView};
use crate::disks::Disk;
use crate::meta::{pairs_of, Pair};
use crate::text::{
    content_of, dec, dec_text, hex_min, hex_min_text, joined, strings_of, succ_text,
};
use vstd::prelude::*;

verus! {

/// The firmware a snapshot was taken under.
pub struct Firmware {
    pub vendor: String,
    pub revision: u32,
    pub uefi_major: u16,
    pub uefi_minor: u16,
}

/// The pair that names the build.
pub open spec fn tool_pair(name: Seq<char>, version: Seq<char>) -> Pair {
    ("tool"@, name + " "@ + version)
}

/// The pair that names the firmware, where it names itself.
pub open spec fn firmware_pairs(fw: Firmware) -> Seq<Pair> {
    if fw.vendor@.len() == 0 {
        Seq::empty()
    } else {
        seq![("firmware"@, fw.vendor@ + " rev 0x"@ + hex_min(fw.revision as nat))]
    }
}

fn add_pair(out: &mut Vec<(String, String)>, name: &str, value: String)
    ensures
        pairs_of(final(out)@) == pairs_of(old(out)@).push((name@, value@)),
{
    let ghost before = pairs_of(out@);
    out.push((name.to_owned(), value));
    assert(pairs_of(out@) =~= before.push((name@, value@)));
}

fn tool_value(name: &str, version: &str) -> (r: String)
    ensures
        r@ == name@ + " "@ + version@,
{
    let mut s = name.to_owned();
    s.push_str(" ");
    s.push_str(version);
    s
}

fn add_firmware(out: &mut Vec<(String, String)>, fw: &Firmware)
    ensures
        pairs_of(final(out)@) == pairs_of(old(out)@) + firmware_pairs(*fw),
{
    let ghost before = pairs_of(out@);
    if !fw.vendor.as_str().is_empty() {
        let mut s = fw.vendor.clone();
        s.push_str(" rev 0x");
        s.push_str(hex_min_text(fw.revision as u64).as_str());
        add_pair(out, "firmware", s);
    }
    assert(pairs_of(out@) =~= before + firmware_pairs(*fw));
}

/// What is recorded with a partition table snapshot.
pub open spec fn origin_pairs(
    name: Seq<char>,
    version: Seq<char>,
    fw: Firmware,
    disk: Disk,
    launched_from: Option<Seq<char>>,
) -> Seq<Pair> {
    let uefi = ("uefi"@, dec(fw.uefi_major as nat) + "."@ + dec(fw.uefi_minor as nat));
    let head = (seq![tool_pair(name, version)] + firmware_pairs(fw)).push(uefi).push(
        ("device"@, disk.path@),
    );
    let model = match content_of(disk.model) {
        Some(m) => head.push(("model"@, m)),
        None => head,
    };
    let sized = model.push(
        (
            "capacity"@,
            dec((disk.last_block + 1) as nat) + " blocks x "@ + dec(disk.block_size as nat)
                + " B"@,
        ),
    );
    match launched_from {
        Some(path) => sized.push(("launched-from"@, path)),
        None => sized,
    }
}

/// What is recorded with a partition table snapshot. `launched_from` is the
/// path of the volume the program came from, where it is known.
pub fn provenance(
    name: &str,
    version: &str,
    fw: &Firmware,
    disk: &Disk,
    launched_from: Option<&str>,
) -> (r: Vec<(String, String)>)
    ensures
        pairs_of(r@) == origin_pairs(
            name@,
            version@,
            *fw,
            *disk,
            match launched_from {
                Some(path) => Some(path@),
                None => None,
            },
        ),
{
    let mut out: Vec<(String, String)> = Vec::new();
    add_pair(&mut out, "tool", tool_value(name, version));
    assert(pairs_of(out@) =~= seq![tool_pair(name@, version@)]);
    add_firmware(&mut out, fw);
    let mut s = dec_text(fw.uefi_major as u64);
    s.push_str(".");
    s.push_str(dec_text(fw.uefi_minor as u64).as_str());
    add_pair(&mut out, "uefi", s);
    add_pair(&mut out, "device", disk.path.clone());
    if let Some(model) = &disk.model {
        add_pair(&mut out, "model", model.clone());
    }
    let mut s = succ_text(disk.last_block);
    s.push_str(" blocks x ");
    s.push_str(dec_text(disk.block_size as u64).as_str());
    s.push_str(" B");
    add_pair(&mut out, "capacity", s);
    if let Some(path) = launched_from {
        add_pair(&mut out, "launched-from", path.to_owned());
    }
    out
}

/// What is recorded with a boot configuration snapshot. A partial copy that
/// says so is worth having; one that pretends to be complete is not.
pub open spec fn boot_pairs(
    name: Seq<char>,
    version: Seq<char>,
    fw: Firmware,
    missed: Seq<Seq<char>>,
) -> Seq<Pair> {
    let head = seq![tool_pair(name, version)] + firmware_pairs(fw);
    if missed.len() == 0 {
        head
    } else {
        head.push(("unread"@, joined(missed, " "@)))
    }
}

fn joined_names(names: &[String]) -> (r: String)
    ensures
        r@ == joined(strings_of(names@), " "@),
{
    let ghost all = strings_of(names@);
    let mut out = String::new();
    let mut i: usize = 0;
    assert(out@ =~= joined(all.take(0), " "@));
    while i < names.len()
        invariant
            i <= names@.len(),
            all == strings_of(names@),
            out@ == joined(all.take(i as int), " "@),
        decreases names@.len() - i,
    {
        if i > 0 {
            out.push_str(" ");
        }
        out.push_str(names[i].as_str());
        i += 1;
        assert(all.take(i as int).drop_last() =~= all.take(i - 1));
        assert(all.take(i as int).last() == all[i - 1]);
    }
    assert(all.take(i as int) =~= all);
    out
}

/// The whole boot configuration, ready to be saved, or why there is nothing
/// to save. `missed` names the variables that could not be read.
pub fn boot_snapshot(
    name: &str,
    version: &str,
    fw: &Firmware,
    time: Timestamp,
    vars: Vec<(String, Vec<u8>)>,
    missed: &[String],
) -> (r: Result<Snapshot, String>)
    ensures
        match r {
            Ok(snap) => vars@.len() > 0 && snap@ == (SnapshotView {
                time,
                vars: vars_of(vars@),
                meta: boot_pairs(name@, version@, *fw, strings_of(missed@)),
            }),
            Err(e) => vars@.len() == 0 && e@ == "there is nothing in NVRAM to save"@,
        },
{
    if vars.len() == 0 {
        return Err("there is nothing in NVRAM to save".to_owned());
    }
    let mut meta: Vec<(String, String)> = Vec::new();
    add_pair(&mut meta, "tool", tool_value(name, version));
    assert(pairs_of(meta@) =~= seq![tool_pair(name@, version@)]);
    add_firmware(&mut meta, fw);
    if missed.len() > 0 {
        add_pair(&mut meta, "unread", joined_names(missed));
    }
    assert(strings_of(missed@).len() == missed@.len());
    Ok(Snapshot { time, vars, meta })
}


/// A snapshot says where it came from: which tool wrote it, what firmware it
/// ran on, which disk it was taken of and how big that was.
pub proof fn a_snapshot_says_where_it_came_from(
    name: Seq<char>,
    version: Seq<char>,
    fw: Firmware,
    disk: Disk,
    launched_from: Option<Seq<char>>,
)
    ensures
        ({
            let pairs = origin_pairs(name, version, fw, disk, launched_from);
            &&& pairs.len() > 0 && pairs[0] == ("tool"@, name + " "@ + version)
            &&& pairs.contains(("device"@, disk.path@))
            &&& pairs.contains(
                ("uefi"@, dec(fw.uefi_major as nat) + "."@ + dec(fw.uefi_minor as nat)),
            )
            &&& pairs.contains(
                (
                    "capacity"@,
                    dec((disk.last_block + 1) as nat) + " blocks x "@ + dec(disk.block_size as nat)
                        + " B"@,
                ),
            )
            &&& disk.model matches Some(model) ==> pairs.contains(("model"@, model@))
            &&& launched_from matches Some(path) ==> pairs.last() == ("launched-from"@, path)
            &&& fw.vendor@.len() > 0 ==> pairs[1] == (
                "firmware"@,
                fw.vendor@ + " rev 0x"@ + hex_min(fw.revision as nat),
            )
        }),
{
    let pairs = origin_pairs(name, version, fw, disk, launched_from);
    let at = 1 + firmware_pairs(fw).len();
    let model_at = at + 2;
    let size_at = if disk.model is Some {
        at + 3
    } else {
        at + 2
    };
    assert(pairs[at as int] == (
        "uefi"@,
        dec(fw.uefi_major as nat) + "."@ + dec(fw.uefi_minor as nat),
    ));
    assert(pairs[at + 1int] == ("device"@, disk.path@));
    if let Some(model) = disk.model {
        assert(pairs[model_at as int] == ("model"@, model@));
    }
    assert(pairs[size_at as int].0 == "capacity"@);
}

/// A copy of the boot variables names what could not be read, and says
/// nothing of it where everything was.
pub proof fn a_partial_copy_says_so(
    name: Seq<char>,
    version: Seq<char>,
    fw: Firmware,
    missed: Seq<Seq<char>>,
)
    ensures
        boot_pairs(name, version, fw, missed)[0] == ("tool"@, name + " "@ + version),
        missed.len() > 0 ==> boot_pairs(name, version, fw, missed).last() == (
            "unread"@,
            joined(missed, " "@),
        ),
        missed.len() == 0 ==> forall|i: int|
            0 <= i < boot_pairs(name, version, fw, missed).len() ==> (#[trigger] boot_pairs(
                name,
                version,
                fw,
                missed,
            )[i]).0 != "unread"@,
{
    reveal_strlit("unread");
    reveal_strlit("tool");
    reveal_strlit("firmware");
    assert("unread"@[0] == 'u' && "tool"@[0] == 't' && "firmware"@[0] == 'f');
}

} // verus!
