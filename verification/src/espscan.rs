//! What is installed on the EFI System Partitions, and whether NVRAM knows
//! about it.
//!
//! The application walks the partitions and hands over what it found. This
//! is somebody else's bootloaders; where the tool keeps its own files is
//! [`crate::volumes`].

use crate::bootopt::{slot_name, slot_text, LoadOption};
use crate::guid::{guid_text, Guid};
use crate::nvram::BootState;
use crate::report::{human, human_size};
use crate::style::{
    add_line, add_lines, bad, blank_line, dim, good, key, line, no_lines, shown, styled, warn,
    wrapped_lines, Line, LineView, Style, in_either,
};
use crate::text::{dec, dec_text, from_chars, succ_text, to_chars};
use crate::ui::{wrapped, writable_width};
use vstd::prelude::*;

verus! {

/// One EFI System Partition on a fixed disk.
pub struct Esp {
    /// The program was launched from it.
    pub boot: bool,
    pub path: String,
    /// The unique GUID of the partition.
    pub partition: Guid,
}

/// One loader found on one of them.
pub struct Candidate {
    /// Which one.
    pub esp: usize,
    /// Its path from the root of the volume.
    pub file: String,
    /// What it was recognised as.
    pub kind: String,
    pub size: u64,
    /// The boot entry that points at it.
    pub registered: Option<u16>,
}

/// Everything found.
pub struct EspScan {
    pub volumes: Vec<Esp>,
    pub candidates: Vec<Candidate>,
    /// The ones whose file system could not be opened.
    pub unreadable: Vec<usize>,
}

/// The device paths of the first `n` entries that decoded.
pub open spec fn paths_known(entries: Seq<(u16, Result<LoadOption, String>)>, n: nat) -> Seq<
    (u16, Seq<u8>),
>
    decreases n,
{
    if n == 0 {
        Seq::empty()
    } else {
        let rest = paths_known(entries, (n - 1) as nat);
        match entries[n - 1].1 {
            Ok(o) => rest.push((entries[n - 1].0, o.device_path@)),
            Err(_) => rest,
        }
    }
}

/// Slots with their bytes, as values.
pub open spec fn path_pairs(v: Seq<(u16, Vec<u8>)>) -> Seq<(u16, Seq<u8>)> {
    Seq::new(v.len(), |i: int| (v[i].0, v[i].1@))
}

/// The device path of every entry that decoded, to match a file on an ESP
/// against.
pub fn known_paths(state: &BootState) -> (r: Vec<(u16, Vec<u8>)>)
    ensures
        path_pairs(r@) == paths_known(state.entries@, state.entries@.len()),
{
    let mut out: Vec<(u16, Vec<u8>)> = Vec::new();
    let mut i: usize = 0;
    assert(path_pairs(out@) =~= paths_known(state.entries@, 0));
    while i < state.entries.len()
        invariant
            i <= state.entries@.len(),
            path_pairs(out@) == paths_known(state.entries@, i as nat),
        decreases state.entries@.len() - i,
    {
        let ghost before = path_pairs(out@);
        if let Ok(o) = &state.entries[i].1 {
            let path = o.device_path.clone();
            assert(path@ =~= o.device_path@);
            out.push((state.entries[i].0, path));
            assert(path_pairs(out@) =~= before.push((state.entries@[i as int].0, o.device_path@)));
        }
        i += 1;
    }
    out
}

/// How many of the first `n` loaders nothing in NVRAM points at.
pub open spec fn unregistered_among(candidates: Seq<Candidate>, n: nat) -> nat
    decreases n,
{
    if n == 0 {
        0
    } else {
        let rest = unregistered_among(candidates, (n - 1) as nat);
        if candidates[n - 1].registered is None {
            rest + 1
        } else {
            rest
        }
    }
}

/// How many loaders nothing in NVRAM points at.
pub fn count_unregistered(candidates: &[Candidate]) -> (r: usize)
    ensures
        r == unregistered_among(candidates@, candidates@.len()),
        r <= candidates@.len(),
{
    let mut n: usize = 0;
    let mut i: usize = 0;
    assert(candidates.len() == candidates@.len());
    while i < candidates.len()
        invariant
            i <= candidates@.len(),
            candidates@.len() <= usize::MAX,
            n <= i,
            n == unregistered_among(candidates@, i as nat),
        decreases candidates@.len() - i,
    {
        if candidates[i].registered.is_none() {
            n += 1;
        }
        i += 1;
    }
    n
}

// --------------------------------------------------------------- the screen

/// One loader, and whether an entry points at it.
pub open spec fn loader_lines(c: Candidate, cols: usize) -> Seq<LineView> {
    wrapped_lines(
        "    "@ + c.file@,
        writable_width(cols as int) as nat,
        Style::Normal,
        "      "@,
    ).push(styled("      "@ + c.kind@ + ", "@ + human(c.size), Style::Dim)).push(
        match c.registered {
            Some(slot) => styled("      registered as "@ + slot_text(slot), Style::Good),
            None => styled("      not in NVRAM"@, Style::Warn),
        },
    )
}

/// The loaders on one ESP among the first `n`.
pub open spec fn loaders_on(
    candidates: Seq<Candidate>,
    esp: int,
    cols: usize,
    n: nat,
) -> Seq<LineView>
    decreases n,
{
    if n == 0 {
        Seq::empty()
    } else {
        let rest = loaders_on(candidates, esp, cols, (n - 1) as nat);
        if candidates[n - 1].esp == esp {
            rest + loader_lines(candidates[n - 1], cols)
        } else {
            rest
        }
    }
}

/// There is a loader on this ESP.
pub open spec fn has_loader(candidates: Seq<Candidate>, esp: int) -> bool {
    exists|i: int| 0 <= i < candidates.len() && (#[trigger] candidates[i]).esp == esp
}

/// One ESP and what is on it.
pub open spec fn esp_lines(scan: EspScan, i: int, cols: usize) -> Seq<LineView> {
    let v = scan.volumes@[i];
    let gap: Seq<LineView> = if i > 0 {
        seq![blank_line()]
    } else {
        Seq::empty()
    };
    let heading = "  ESP "@ + dec((i + 1) as nat) + (if v.boot {
        "  [boot]"@
    } else {
        ""@
    });
    let head = gap.push(styled(heading, Style::Key)) + wrapped_lines(
        "    "@ + v.path@,
        writable_width(cols as int) as nat,
        Style::Dim,
        "      "@,
    ).push(styled("    partition "@ + guid_text(v.partition.0@), Style::Dim));
    if exists|k: int| 0 <= k < scan.unreadable@.len() && #[trigger] scan.unreadable@[k] == i {
        head.push(styled("    The filesystem on this ESP could not be opened."@, Style::Bad))
    } else if !has_loader(scan.candidates@, i) {
        head.push(styled("    No EFI binaries on this ESP."@, Style::Warn))
    } else {
        head + loaders_on(scan.candidates@, i, cols, scan.candidates@.len())
    }
}

/// The first `n` ESPs.
pub open spec fn esps_lines(scan: EspScan, cols: usize, n: nat) -> Seq<LineView>
    decreases n,
{
    if n == 0 {
        Seq::empty()
    } else {
        esps_lines(scan, cols, (n - 1) as nat) + esp_lines(scan, n - 1, cols)
    }
}

/// What the screen ends with.
pub open spec fn scan_end(scan: EspScan) -> Seq<LineView> {
    let n = unregistered_among(scan.candidates@, scan.candidates@.len());
    (if n > 0 {
        seq![
            blank_line(),
            styled(
                "  "@ + dec(n) + " of "@ + dec(scan.candidates@.len())
                    + " have no boot entry pointing at them."@,
                Style::Normal,
            ),
            styled("  Register a bootloader, in the menu, adds one."@, Style::Dim),
        ]
    } else {
        seq![blank_line()]
    }).push(
        styled("  Nothing was written. This screen never modifies NVRAM."@, Style::Good),
    )
}

/// Everything the screen says.
pub open spec fn scan_lines(scan: EspScan, cols: usize) -> Seq<LineView> {
    if scan.volumes@.len() == 0 {
        seq![
            styled("  No EFI System Partition was found on a fixed disk."@, Style::Bad),
            blank_line(),
            styled("  Removable media is not scanned: a boot entry pointing"@, Style::Dim),
            styled("  at a USB stick stops working when it is unplugged."@, Style::Dim),
        ]
    } else {
        esps_lines(scan, cols, scan.volumes@.len()) + scan_end(scan)
    }
}

fn render_loader(c: &Candidate, cols: usize) -> (r: Vec<Line>)
    ensures
        shown(r@) == loader_lines(*c, cols),
{
    let mut file = "    ".to_owned();
    file.push_str(c.file.as_str());
    let mut out = wrapped(file.as_str(), Style::Normal, "      ", cols);
    let mut s = "      ".to_owned();
    s.push_str(c.kind.as_str());
    s.push_str(", ");
    s.push_str(human_size(c.size).as_str());
    add_line(&mut out, dim(s));
    match c.registered {
        Some(slot) => {
            let mut s = "      registered as ".to_owned();
            s.push_str(slot_name(slot).as_str());
            add_line(&mut out, good(s));
        },
        None => add_line(&mut out, warn("      not in NVRAM")),
    }
    out
}

/// The loaders on one ESP, and whether there is one.
fn render_loaders(candidates: &[Candidate], esp: usize, cols: usize) -> (r: (Vec<Line>, bool))
    ensures
        shown(r.0@) == loaders_on(candidates@, esp as int, cols, candidates@.len()),
        r.1 == has_loader(candidates@, esp as int),
{
    let mut out = no_lines();
    let mut any = false;
    let mut i: usize = 0;
    while i < candidates.len()
        invariant
            i <= candidates@.len(),
            shown(out@) == loaders_on(candidates@, esp as int, cols, i as nat),
            any == exists|j: int| 0 <= j < i && (#[trigger] candidates@[j]).esp == esp,
        decreases candidates@.len() - i,
    {
        if candidates[i].esp == esp {
            assert(candidates@[i as int].esp == esp);
            add_lines(&mut out, render_loader(&candidates[i], cols));
            any = true;
        }
        i += 1;
    }
    (out, any)
}

fn holds(list: &[usize], value: usize) -> (r: bool)
    ensures
        r == exists|k: int| 0 <= k < list@.len() && #[trigger] list@[k] == value,
{
    let mut i: usize = 0;
    while i < list.len()
        invariant
            i <= list@.len(),
            forall|j: int| 0 <= j < i ==> #[trigger] list@[j] != value,
        decreases list@.len() - i,
    {
        if list[i] == value {
            assert(list@[i as int] == value);
            return true;
        }
        i += 1;
    }
    false
}

fn render_esp(scan: &EspScan, i: usize, cols: usize) -> (r: Vec<Line>)
    requires
        i < scan.volumes@.len(),
    ensures
        shown(r@) == esp_lines(*scan, i as int, cols),
{
    let v = &scan.volumes[i];
    let mut out = no_lines();
    if i > 0 {
        add_line(&mut out, Line::blank());
    }
    let mut heading = "  ESP ".to_owned();
    heading.push_str(succ_text(i as u64).as_str());
    let mark = if v.boot {
        "  [boot]"
    } else {
        ""
    };
    heading.push_str(mark);
    add_line(&mut out, key(heading));
    let ghost first = shown(out@);
    let mut path = "    ".to_owned();
    path.push_str(v.path.as_str());
    let mut place = wrapped(path.as_str(), Style::Dim, "      ", cols);
    let mut s = "    partition ".to_owned();
    s.push_str(v.partition.to_text().as_str());
    add_line(&mut place, dim(s));
    add_lines(&mut out, place);
    let ghost head = shown(out@);
    if holds(scan.unreadable.as_slice(), i) {
        add_line(&mut out, bad("    The filesystem on this ESP could not be opened."));
        assert(shown(out@) =~= esp_lines(*scan, i as int, cols));
        return out;
    }
    let (found, any) = render_loaders(scan.candidates.as_slice(), i, cols);
    if !any {
        add_line(&mut out, warn("    No EFI binaries on this ESP."));
    } else {
        add_lines(&mut out, found);
    }
    assert(shown(out@) =~= esp_lines(*scan, i as int, cols));
    out
}

fn render_end(scan: &EspScan) -> (r: Vec<Line>)
    ensures
        shown(r@) == scan_end(*scan),
{
    let n: usize = count_unregistered(scan.candidates.as_slice());
    let mut out = no_lines();
    add_line(&mut out, Line::blank());
    if n > 0 {
        let mut s = "  ".to_owned();
        s.push_str(dec_text(n as u64).as_str());
        s.push_str(" of ");
        s.push_str(dec_text(scan.candidates.len() as u64).as_str());
        s.push_str(" have no boot entry pointing at them.");
        add_line(&mut out, line(s));
        add_line(&mut out, dim("  Register a bootloader, in the menu, adds one."));
    }
    add_line(&mut out, good("  Nothing was written. This screen never modifies NVRAM."));
    assert(shown(out@) =~= scan_end(*scan));
    out
}

/// What is actually installed on the ESPs, and whether NVRAM knows about it:
/// the title of the page, and the page.
pub fn run_boot_scan(scan: &EspScan, cols: usize) -> (r: (String, Vec<Line>))
    ensures
        r.0@ == if scan.volumes@.len() == 0 {
            "Bootloaders on the ESPs"@
        } else {
            "Bootloaders on the ESPs (read only)"@
        },
        shown(r.1@) == scan_lines(*scan, cols),
{
    let mut out = no_lines();
    if scan.volumes.len() == 0 {
        add_line(&mut out, bad("  No EFI System Partition was found on a fixed disk."));
        add_line(&mut out, Line::blank());
        add_line(&mut out, dim("  Removable media is not scanned: a boot entry pointing"));
        add_line(&mut out, dim("  at a USB stick stops working when it is unplugged."));
        return ("Bootloaders on the ESPs".to_owned(), out);
    }
    let mut i: usize = 0;
    while i < scan.volumes.len()
        invariant
            i <= scan.volumes@.len(),
            shown(out@) == esps_lines(*scan, cols, i as nat),
        decreases scan.volumes@.len() - i,
    {
        add_lines(&mut out, render_esp(scan, i, cols));
        i += 1;
    }
    add_lines(&mut out, render_end(scan));
    ("Bootloaders on the ESPs (read only)".to_owned(), out)
}

// ------------------------------------------------------------ what to call it

/// What follows the last backslash.
pub open spec fn last_part(file: Seq<char>) -> Seq<char>
    decreases file.len(),
{
    if file.len() == 0 {
        file
    } else if file.last() == '\\' {
        Seq::empty()
    } else {
        last_part(file.drop_last()).push(file.last())
    }
}

/// `text` begins with `start`.
pub open spec fn begins_with(text: Seq<char>, start: Seq<char>) -> bool {
    start.len() <= text.len() && text.take(start.len() as int) == start
}

/// What to call a newly registered loader: what a person would call it, and
/// an unrecognised binary by its filename, which is the only true thing
/// available. With more than one ESP, two of them can hold the same loader,
/// so the name says which one.
pub open spec fn suggestion(c: Candidate, esps: int) -> Seq<char> {
    (if begins_with(c.kind@, "unrecognised"@) {
        last_part(c.file@)
    } else {
        c.kind@
    }) + (if esps > 1 {
        " (ESP "@ + dec((c.esp + 1) as nat) + ")"@
    } else {
        ""@
    })
}

proof fn last_part_from(file: Seq<char>, at: int)
    requires
        0 <= at <= file.len(),
        at == 0 || file[at - 1] == '\\',
        forall|j: int| at <= j < file.len() ==> file[j] != '\\',
    ensures
        last_part(file) == file.skip(at),
    decreases file.len() - at,
{
    if at < file.len() {
        assert forall|j: int| at <= j < file.drop_last().len() implies file.drop_last()[j]
            != '\\' by {
            assert(file.drop_last()[j] == file[j]);
        }
        last_part_from(file.drop_last(), at);
        assert(file.skip(at) =~= file.drop_last().skip(at).push(file.last()));
    } else {
        assert(file.skip(at) =~= Seq::<char>::empty());
    }
}

fn file_name(file: &str) -> (r: String)
    ensures
        r@ == last_part(file@),
{
    let chars = to_chars(file);
    let mut at: usize = chars.len();
    while at > 0 && chars[at - 1] != '\\'
        invariant
            at <= chars@.len(),
            forall|j: int| at <= j < chars@.len() ==> chars@[j] != '\\',
        decreases at,
    {
        at -= 1;
    }
    proof {
        last_part_from(file@, at as int);
    }
    assert(chars@.subrange(at as int, chars@.len() as int) =~= chars@.skip(at as int));
    from_chars(&chars.as_slice()[at..chars.len()])
}

fn starts_with(text: &str, start: &str) -> (r: bool)
    ensures
        r == begins_with(text@, start@),
{
    let t = to_chars(text);
    let s = to_chars(start);
    if s.len() > t.len() {
        return false;
    }
    let mut i: usize = 0;
    while i < s.len()
        invariant
            i <= s@.len(),
            s@.len() <= t@.len(),
            s@ == start@,
            t@ == text@,
            forall|j: int| 0 <= j < i ==> t@[j] == s@[j],
        decreases s@.len() - i,
    {
        if t[i] != s[i] {
            assert(text@.take(start@.len() as int)[i as int] != start@[i as int]);
            return false;
        }
        i += 1;
    }
    assert(text@.take(start@.len() as int) =~= start@);
    true
}

/// What to call a newly registered loader. Generated rather than typed:
/// there is no keyboard.
pub fn suggested_description(c: &Candidate, esps: usize) -> (r: String)
    ensures
        r@ == suggestion(*c, esps as int),
{
    let mut name = if starts_with(c.kind.as_str(), "unrecognised") {
        file_name(c.file.as_str())
    } else {
        c.kind.clone()
    };
    let mut end = "".to_owned();
    if esps > 1 {
        end = " (ESP ".to_owned();
        end.push_str(succ_text(c.esp as u64).as_str());
        end.push_str(")");
    }
    name.push_str(end.as_str());
    name
}

// --------------------------------------------------------------------- laws

proof fn paths_are_known(entries: Seq<(u16, Result<LoadOption, String>)>, n: nat, i: int)
    requires
        0 <= i < n <= entries.len(),
    ensures
        entries[i].1 matches Ok(o) ==> paths_known(entries, n).contains(
            (entries[i].0, o.device_path@),
        ),
    decreases n,
{
    let rest = paths_known(entries, (n - 1) as nat);
    let all = paths_known(entries, n);
    if let Ok(o) = entries[i].1 {
        let x = (entries[i].0, o.device_path@);
        if i == n - 1 {
            assert(all[rest.len() as int] == x);
        } else {
            paths_are_known(entries, (n - 1) as nat, i);
            let k = choose|k: int| 0 <= k < rest.len() && rest[k] == x;
            assert(all[k] == x);
        }
    }
}

proof fn known_paths_are_entries(
    entries: Seq<(u16, Result<LoadOption, String>)>,
    n: nat,
    k: int,
) -> (i: int)
    requires
        n <= entries.len(),
        0 <= k < paths_known(entries, n).len(),
    ensures
        0 <= i < n,
        entries[i].1 matches Ok(o) && paths_known(entries, n)[k] == (entries[i].0, o.device_path@),
    decreases n,
{
    let rest = paths_known(entries, (n - 1) as nat);
    if k < rest.len() {
        known_paths_are_entries(entries, (n - 1) as nat, k)
    } else {
        n - 1
    }
}

/// Loaders are matched against every entry that can be read, by its own slot
/// and device path, and against nothing else.
pub proof fn every_entry_is_matched_against(
    entries: Seq<(u16, Result<LoadOption, String>)>,
    slot: u16,
    path: Seq<u8>,
)
    ensures
        paths_known(entries, entries.len()).contains((slot, path)) <==> exists|i: int|
            0 <= i < entries.len() && (#[trigger] entries[i]).0 == slot && (entries[i].1 matches Ok(
                o,
            ) && o.device_path@ == path),
{
    let all = paths_known(entries, entries.len());
    if all.contains((slot, path)) {
        let k = choose|k: int| 0 <= k < all.len() && all[k] == (slot, path);
        let i = known_paths_are_entries(entries, entries.len(), k);
        assert(entries[i].0 == slot);
    }
    if exists|i: int|
        0 <= i < entries.len() && (#[trigger] entries[i]).0 == slot && (entries[i].1 matches Ok(o)
            && o.device_path@ == path) {
        let i = choose|i: int|
            0 <= i < entries.len() && (#[trigger] entries[i]).0 == slot && (entries[i].1 matches Ok(
                o,
            ) && o.device_path@ == path);
        paths_are_known(entries, entries.len(), i);
    }
}

proof fn unregistered_are_counted(candidates: Seq<Candidate>, n: nat)
    requires
        n <= candidates.len(),
    ensures
        unregistered_among(candidates, n) == candidates.take(n as int).filter(
            |c: Candidate| c.registered is None,
        ).len(),
    decreases n,
{
    reveal(Seq::filter);
    if n > 0 {
        unregistered_are_counted(candidates, (n - 1) as nat);
        assert(candidates.take(n as int).drop_last() =~= candidates.take(n - 1));
    }
}

/// The loaders that are counted as unregistered are those nothing points at.
pub proof fn what_nothing_points_at_is_counted(candidates: Seq<Candidate>)
    ensures
        unregistered_among(candidates, candidates.len()) == candidates.filter(
            |c: Candidate| c.registered is None,
        ).len(),
{
    unregistered_are_counted(candidates, candidates.len());
    assert(candidates.take(candidates.len() as int) =~= candidates);
}

proof fn loaders_are_listed(
    candidates: Seq<Candidate>,
    esp: int,
    cols: usize,
    n: nat,
    i: int,
    x: LineView,
)
    requires
        0 <= i < n <= candidates.len(),
        candidates[i].esp == esp,
        loader_lines(candidates[i], cols).contains(x),
    ensures
        loaders_on(candidates, esp, cols, n).contains(x),
    decreases n,
{
    let rest = loaders_on(candidates, esp, cols, (n - 1) as nat);
    in_either(rest, loader_lines(candidates[n - 1], cols), x);
    if i < n - 1 {
        loaders_are_listed(candidates, esp, cols, (n - 1) as nat, i, x);
    }
}

proof fn esps_are_listed(scan: EspScan, cols: usize, n: nat, i: int, x: LineView)
    requires
        0 <= i < n <= scan.volumes@.len(),
        esp_lines(scan, i, cols).contains(x),
    ensures
        esps_lines(scan, cols, n).contains(x),
    decreases n,
{
    in_either(esps_lines(scan, cols, (n - 1) as nat), esp_lines(scan, n - 1, cols), x);
    if i < n - 1 {
        esps_are_listed(scan, cols, (n - 1) as nat, i, x);
    }
}

/// A scan says of every loader, under the ESP it is on, whether an entry
/// points at it and which.
pub proof fn every_loader_is_on_the_page(scan: EspScan, cols: usize, i: int)
    requires
        0 <= i < scan.candidates@.len(),
        scan.candidates@[i].esp < scan.volumes@.len(),
        forall|k: int|
            0 <= k < scan.unreadable@.len() ==> #[trigger] scan.unreadable@[k]
                != scan.candidates@[i].esp,
    ensures
        scan.candidates@[i].registered matches Some(slot) ==> scan_lines(scan, cols).contains(
            styled("      registered as "@ + slot_text(slot), Style::Good),
        ),
        scan.candidates@[i].registered is None ==> scan_lines(scan, cols).contains(
            styled("      not in NVRAM"@, Style::Warn),
        ),
        scan_lines(scan, cols).contains(
            styled(
                "      "@ + scan.candidates@[i].kind@ + ", "@ + human(scan.candidates@[i].size),
                Style::Dim,
            ),
        ),
{
    let c = scan.candidates@[i];
    let esp = c.esp as int;
    let lines = loader_lines(c, cols);
    let x = lines[lines.len() - 1];
    let y = lines[lines.len() - 2];
    assert(lines.contains(x) && lines.contains(y));
    loaders_are_listed(scan.candidates@, esp, cols, scan.candidates@.len(), i, x);
    loaders_are_listed(scan.candidates@, esp, cols, scan.candidates@.len(), i, y);
    let on = loaders_on(scan.candidates@, esp, cols, scan.candidates@.len());
    let all = esp_lines(scan, esp, cols);
    assert(has_loader(scan.candidates@, esp)) by {
        assert(scan.candidates@[i].esp == esp);
    }
    let head = all.take(all.len() - on.len());
    assert(all =~= head + on) by {
        assert(all.skip(all.len() - on.len()) =~= on);
    }
    in_either(head, on, x);
    in_either(head, on, y);
    esps_are_listed(scan, cols, scan.volumes@.len(), esp, x);
    esps_are_listed(scan, cols, scan.volumes@.len(), esp, y);
    in_either(esps_lines(scan, cols, scan.volumes@.len()), scan_end(scan), x);
    in_either(esps_lines(scan, cols, scan.volumes@.len()), scan_end(scan), y);
}

/// A loader of a known kind is called by its kind, and one that is not by its
/// file name, the part behind the last backslash; with several ESPs the one it
/// is on is added.
pub proof fn a_loader_is_called_by_its_kind_or_file(c: Candidate, esps: int, name: Seq<char>)
    requires
        c.file@.len() > name.len(),
        c.file@.skip(c.file@.len() - name.len()) == name,
        c.file@[c.file@.len() - name.len() - 1] == '\\',
        !name.contains('\\'),
    ensures
        ({
            let base = if begins_with(c.kind@, "unrecognised"@) {
                name
            } else {
                c.kind@
            };
            suggestion(c, esps) == if esps > 1 {
                base + (" (ESP "@ + dec((c.esp + 1) as nat) + ")"@)
            } else {
                base
            }
        }),
{
    last_part_is(c.file@, name);
    reveal_strlit("");
    let base = if begins_with(c.kind@, "unrecognised"@) {
        name
    } else {
        c.kind@
    };
    assert(base + ""@ =~= base);
}

proof fn last_part_is(file: Seq<char>, name: Seq<char>)
    requires
        file.len() > name.len(),
        file.skip(file.len() - name.len()) == name,
        file[file.len() - name.len() - 1] == '\\',
        !name.contains('\\'),
    ensures
        last_part(file) == name,
    decreases name.len(),
{
    if name.len() == 0 {
        assert(last_part(file) =~= name);
    } else {
        let n = name.drop_last();
        let f = file.drop_last();
        assert(file.last() == name.last()) by {
            assert(file.skip(file.len() - name.len()).last() == name.last());
        }
        assert(name.contains(name.last()));
        assert(f.skip(f.len() - n.len()) =~= n) by {
            assert forall|i: int| 0 <= i < n.len() implies f.skip(f.len() - n.len())[i] == n[i] by {
                assert(file.skip(file.len() - name.len())[i] == name[i]);
            }
        }
        assert(!n.contains('\\')) by {
            if n.contains('\\') {
                let i = choose|i: int| 0 <= i < n.len() && n[i] == '\\';
                assert(name[i] == '\\');
            }
        }
        last_part_is(f, n);
        assert(n.push(name.last()) =~= name);
    }
}

} // verus!
