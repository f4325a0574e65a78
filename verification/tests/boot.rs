use gptcore::backup::Timestamp;
use gptcore::bootcfg::{self, Snapshot};
use gptcore::bootflow::{
    authorise_and_write, boot_slots, choose_loader, ensure_boot_snapshot, loader_items, new_loaders,
    no_boot_entries, pick_boot_entry, placement_items, report_applied, run_boot_default,
    run_boot_once, run_boot_register, BootNext, Change, Prepared, RegisterNext,
    SnapshotNext, SoFar,
};
use gptcore::bootopt::{self, LoadOption, VarWrite, LOAD_OPTION_ACTIVE};
use gptcore::bootsaved::{boot_items, boot_restore_opening, load_boot, run_boot_restore, SavedBoot};
use gptcore::bootview::{render_boot_entry, run_boot_view, slot_with_name};
use gptcore::disks::Disk;
use gptcore::espscan::{known_paths, run_boot_scan, suggested_description, Candidate, Esp, EspScan};
use gptcore::menus::{gpt_menu, main_intro, main_menu, nvram_menu, Gpt, Main, Nvram};
use gptcore::nvram::{
    self, apply, capture, get, get_u16, read, saveable_names, size_of, write_error, Answer,
    ApplyStep, BootState, CaptureStep, ReadStep, Refusal, Reply, SizeAnswer, VarKey, Walk,
};
use gptcore::origin::{boot_snapshot, provenance, Firmware};
use gptcore::overview::{count, run_overview};
use gptcore::saved::{File, Looked, Opening};
use gptcore::style::{plain, Line, Style};
use gptcore::volumes::{Volume, Written};
use gptcore::{Guid, SoftCrc32};

const CRC: SoftCrc32 = SoftCrc32;

fn texts(lines: &[Line]) -> Vec<&str> {
    lines.iter().map(|l| l.text.as_str()).collect()
}

fn option(name: &str) -> LoadOption {
    LoadOption {
        attributes: LOAD_OPTION_ACTIVE,
        description: name.to_string(),
        device_path: vec![0x7F, 0xFF, 4, 0],
        optional_data: vec![],
    }
}

/// Two entries in the order, one that fell out of it and one that will not
/// decode.
fn state() -> BootState {
    BootState {
        current: Some(1),
        next: Some(3),
        timeout: Some(5),
        order: Ok(vec![2, 1, 9]),
        entries: vec![
            (1, Ok(option("SteamOS"))),
            (2, Ok(LoadOption { attributes: 0, ..option("Windows") })),
            (3, Ok(option("Rescue"))),
            (4, Err("too short".to_string())),
        ],
        truncated: None,
    }
}

fn paths() -> Vec<String> {
    ["HD(1)/steam", "", "HD(1)/rescue", ""].iter().map(|s| s.to_string()).collect()
}

#[test]
fn a_variable_that_is_not_there_is_no_failure() {
    assert_eq!(get(Answer::Found(vec![1])), Ok(Some(vec![1])));
    assert_eq!(get(Answer::NotFound), Ok(None));
    assert_eq!(
        get(Answer::Failed("DEVICE_ERROR".to_string())),
        Err("cannot read (DEVICE_ERROR)".to_string())
    );
    assert_eq!(size_of(&SizeAnswer::Fitted(3)), Ok(Some(3)));
    assert_eq!(size_of(&SizeAnswer::TooSmall(Some(99))), Ok(Some(99)));
    assert_eq!(size_of(&SizeAnswer::TooSmall(None)), Ok(Some(0)));
    assert_eq!(size_of(&SizeAnswer::NotFound), Ok(None));
    assert!(size_of(&SizeAnswer::Failed("X".to_string())).is_err());
    assert_eq!(nvram::err("cannot open", "NOT_READY"), "cannot open (NOT_READY)");
    assert_eq!(get_u16(&Ok(Some(vec![1, 2]))), Some(0x0201));
    assert_eq!(get_u16(&Ok(Some(vec![1, 2, 0, 0]))), None);
    assert_eq!(get_u16(&Ok(None)), None);
}

fn global(name: &str) -> Result<VarKey, String> {
    Ok(VarKey { global: true, name: name.to_string() })
}

#[test]
fn the_walk_finds_every_slot_once_and_in_order() {
    let mut walk = Walk::new();
    for name in ["Boot0003", "BootOrder", "Boot0001", "Boot0003", "BootCurrent"] {
        assert!(walk.see(global(name)));
    }
    assert!(walk.see(Ok(VarKey { global: false, name: "Boot0002".to_string() })));
    assert_eq!(walk.slots, vec![1, 3]);
    assert_eq!(walk.seen, 5, "another namespace is not counted");
    assert!(walk.truncated.is_none());
    assert!(!walk.see(Err("DEVICE_ERROR".to_string())));
    assert_eq!(
        walk.truncated.as_deref(),
        Some("the variable store could not be walked to the end (DEVICE_ERROR)")
    );
}

#[test]
fn a_walk_that_never_ends_is_stopped() {
    let mut walk = Walk::new();
    let mut steps = 0;
    while walk.see(global("Boot0001")) {
        steps += 1;
        assert!(steps < 5000, "the walk was not stopped");
    }
    assert_eq!(steps, 1024);
    assert_eq!(
        walk.truncated.as_deref(),
        Some(
            "the variable store walk was stopped after 1024 global names; the firmware may be \
             repeating itself"
        )
    );
}

#[test]
fn the_store_is_read_whole() {
    let entry = bootopt::encode(&option("SteamOS"));
    let mut walk = Walk::new();
    for name in ["Boot0003", "Boot0001", "Boot0002"] {
        assert!(walk.see(global(name)));
    }
    let mut asked = Vec::new();
    let mut replies: Vec<Reply> = Vec::new();
    let s = loop {
        match read(&walk, &replies) {
            ReadStep::Ask(name) => {
                replies.push(match name.as_str() {
                    "Boot0001" => Ok(Some(entry.clone())),
                    "Boot0002" => Err("locked".to_string()),
                    "Boot0003" => Ok(Some(vec![1])),
                    "BootOrder" => Ok(Some(vec![1, 0, 2, 0])),
                    "BootCurrent" => Ok(Some(vec![1, 0])),
                    "BootNext" => Ok(None),
                    _ => Err("x".to_string()),
                });
                asked.push(name);
            }
            ReadStep::Done(s) => break s,
        }
    };
    assert_eq!(
        asked,
        ["Boot0001", "Boot0002", "Boot0003", "BootOrder", "BootCurrent", "BootNext", "Timeout"]
    );
    assert_eq!(s.entries.iter().map(|e| e.0).collect::<Vec<u16>>(), [1, 2, 3]);
    assert_eq!(s.current, Some(1));
    assert_eq!((s.next, s.timeout), (None, None));
    assert_eq!(s.order, Ok(vec![1, 2]));
    assert_eq!(s.entries[0].1.as_ref().unwrap().description, "SteamOS");
    assert!(s.entries[1].1.is_err());
    assert!(s.entries[2].1.is_err());
    assert_eq!(s.orphans(), vec![3]);
    assert!(s.get(2).is_some());
    assert!(s.get(7).is_none());
}

/// What is asked for, saved and missed when a store with these names is
/// saved.
fn captured(
    names: &[&str],
    failed: Option<&str>,
    answer: impl Fn(&str) -> Reply,
) -> (Vec<String>, Vec<(String, Vec<u8>)>, Vec<String>) {
    let mut walk = Walk::new();
    for name in names {
        assert!(walk.see(global(name)));
    }
    if let Some(status) = failed {
        assert!(!walk.see(Err(status.to_string())));
    }
    let mut asked = Vec::new();
    let mut replies = Vec::new();
    loop {
        match capture(&walk, &replies) {
            CaptureStep::Read(name) => {
                replies.push(answer(&name));
                asked.push(name);
            }
            CaptureStep::Done(vars, missed) => return (asked, vars, missed),
        }
    }
}

#[test]
fn a_capture_says_what_it_missed() {
    let (asked, vars, missed) = captured(&["Boot0001"], None, |name| match name {
        "Boot0001" => Ok(Some(vec![1, 2])),
        "BootOrder" => Err("locked".to_string()),
        _ => Ok(None),
    });
    assert_eq!(asked, ["BootOrder", "BootNext", "Timeout", "Boot0001"]);
    assert_eq!(vars, vec![("Boot0001".to_string(), vec![1, 2])]);
    assert_eq!(missed, vec!["BootOrder".to_string()]);
    let (_, vars, missed) = captured(&[], Some("DEVICE_ERROR"), |_| Err("locked".to_string()));
    assert!(vars.is_empty());
    assert_eq!(
        missed,
        [
            "the variable store could not be walked to the end (DEVICE_ERROR)",
            "BootOrder",
            "BootNext",
            "Timeout"
        ]
    );
}

#[test]
fn the_settings_are_saved_first_and_the_slots_in_order() {
    let (_, vars, missed) =
        captured(&["Boot000A", "Boot0002", "Boot0001"], None, |_| Ok(Some(vec![0])));
    let names: Vec<&str> = vars.iter().map(|(n, _)| n.as_str()).collect();
    assert_eq!(names, ["BootOrder", "BootNext", "Timeout", "Boot0001", "Boot0002", "Boot000A"]);
    assert!(missed.is_empty());
    assert_eq!(saveable_names(&[3]), ["BootOrder", "BootNext", "Timeout", "Boot0003"]);
}

fn write(name: &str) -> VarWrite {
    VarWrite { name: name.to_string(), data: vec![1] }
}

#[test]
fn writes_stop_at_the_first_refusal() {
    let writes = [write("Boot0005"), write("BootOrder")];
    assert!(matches!(apply(&writes, &[]), ApplyStep::Write(0)));
    assert!(matches!(apply(&writes, &[Ok(())]), ApplyStep::Write(1)));
    assert!(matches!(apply(&writes, &[Ok(()), Ok(())]), ApplyStep::Done));
    match apply(&writes, &[Ok(()), Err("locked".to_string())]) {
        ApplyStep::Failed(n, why) => assert_eq!((n, why.as_str()), (1, "locked")),
        _ => panic!("it was refused"),
    }
    match apply(&[write("dbx")], &[]) {
        ApplyStep::Failed(n, why) => {
            assert_eq!((n, why.as_str()), (0, "dbx is not a variable this tool writes"))
        }
        _ => panic!("it is not ours to write"),
    }
}

#[test]
fn a_refusal_is_worth_naming() {
    assert!(write_error("Boot0001", &Refusal::WriteProtected).starts_with("Boot0001 is locked"));
    assert!(write_error("Boot0001", &Refusal::SecurityViolation).contains("Secure Boot policy"));
    assert!(write_error("Boot0001", &Refusal::OutOfResources)
        .starts_with("there is no room left in NVRAM for Boot0001."));
    assert_eq!(
        write_error("Boot0001", &Refusal::Other("TIMEOUT".to_string())),
        "Boot0001 could not be written (TIMEOUT)"
    );
}

#[test]
fn a_slot_is_shown_with_what_stands_in_it() {
    let s = state();
    assert_eq!(slot_with_name(&s, 1), "Boot0001  SteamOS");
    assert_eq!(slot_with_name(&s, 4), "Boot0004  (unreadable)");
    assert_eq!(slot_with_name(&s, 9), "Boot0009  (no such entry)");
}

#[test]
fn an_entry_is_rendered_with_its_path_and_flags() {
    let o: Result<LoadOption, String> =
        Ok(LoadOption { attributes: 0, optional_data: vec![0; 3], ..option("Old") });
    let lines = render_boot_entry(7, &o, "HD(1)", 80);
    assert_eq!(
        texts(&lines),
        [
            "  Boot0007  Old",
            "      HD(1)",
            "      [inactive]",
            "      3 bytes of load options",
        ]
    );
    assert_eq!(lines[0].style, Style::Dim);
    let e: Result<LoadOption, String> = Err("too short".to_string());
    assert_eq!(
        texts(&render_boot_entry(7, &e, "", 80)),
        ["  Boot0007  cannot be read - too short"]
    );
}

#[test]
fn the_view_numbers_the_order_and_lists_what_it_misses() {
    let lines = run_boot_view(&state(), &paths(), 80);
    assert_eq!(
        texts(&lines),
        [
            "  Booted from: Boot0001  SteamOS",
            "  Next boot:   Boot0003  Rescue (one shot)",
            "  Menu timeout: 5 s",
            "",
            "  Boot order (3 entries):",
            "   1. Boot0002  Windows",
            "      [inactive]",
            "   2. Boot0001* SteamOS",
            "      HD(1)/steam",
            "   3. Boot0009  <- in the order, but no such entry",
            "",
            "  Present, but not in the boot order:",
            "  The firmware will not offer these.",
            "  Boot0003* Rescue",
            "      HD(1)/rescue",
            "  Boot0004  cannot be read - too short",
            "",
            "  Nothing was written. This screen never modifies NVRAM.",
        ]
    );
    let empty = BootState {
        current: None,
        next: None,
        timeout: None,
        order: Ok(vec![]),
        entries: vec![],
        truncated: Some("stopped".to_string()),
    };
    let text = plain(&run_boot_view(&empty, &[], 80));
    assert!(text.starts_with("  stopped\n  The list below may be incomplete.\n\n"), "{text}");
    assert!(text.contains("  Booted from: the firmware did not say\n"), "{text}");
    assert!(text.contains("  BootOrder is empty.\n"), "{text}");
    assert!(text.contains("  There are no boot entries in NVRAM at all.\n"), "{text}");
}

fn scan() -> EspScan {
    let candidate = |esp, file: &str, kind: &str, registered| Candidate {
        esp,
        file: file.to_string(),
        kind: kind.to_string(),
        size: 2048,
        registered,
    };
    EspScan {
        volumes: vec![
            Esp { boot: true, path: "HD(1)".to_string(), partition: Guid::nil() },
            Esp { boot: false, path: "HD(2)".to_string(), partition: Guid::nil() },
            Esp { boot: false, path: "HD(3)".to_string(), partition: Guid::nil() },
        ],
        candidates: vec![
            candidate(0, "\\EFI\\steamos\\steamcl.efi", "SteamOS", Some(1)),
            candidate(0, "\\EFI\\odd\\thing.efi", "unrecognised EFI binary", None),
        ],
        unreadable: vec![1],
    }
}

#[test]
fn the_scan_says_what_nvram_knows() {
    let (title, lines) = run_boot_scan(&scan(), 80);
    assert_eq!(title, "Bootloaders on the ESPs (read only)");
    assert_eq!(
        texts(&lines),
        [
            "  ESP 1  [boot]",
            "    HD(1)",
            "    partition 00000000-0000-0000-0000-000000000000",
            "    \\EFI\\steamos\\steamcl.efi",
            "      SteamOS, 2.0 KiB",
            "      registered as Boot0001",
            "    \\EFI\\odd\\thing.efi",
            "      unrecognised EFI binary, 2.0 KiB",
            "      not in NVRAM",
            "",
            "  ESP 2",
            "    HD(2)",
            "    partition 00000000-0000-0000-0000-000000000000",
            "    The filesystem on this ESP could not be opened.",
            "",
            "  ESP 3",
            "    HD(3)",
            "    partition 00000000-0000-0000-0000-000000000000",
            "    No EFI binaries on this ESP.",
            "",
            "  1 of 2 have no boot entry pointing at them.",
            "  Register a bootloader, in the menu, adds one.",
            "  Nothing was written. This screen never modifies NVRAM.",
        ]
    );
    let none = EspScan { volumes: vec![], candidates: vec![], unreadable: vec![] };
    let (title, lines) = run_boot_scan(&none, 80);
    assert_eq!((title.as_str(), lines.len()), ("Bootloaders on the ESPs", 4));
}

#[test]
fn a_loader_is_called_what_a_person_would_call_it() {
    let s = scan();
    assert_eq!(suggested_description(&s.candidates[0], 1), "SteamOS");
    assert_eq!(suggested_description(&s.candidates[0], 3), "SteamOS (ESP 1)");
    assert_eq!(suggested_description(&s.candidates[1], 1), "thing.efi");
    assert_eq!(
        known_paths(&state()),
        vec![
            (1, vec![0x7F, 0xFF, 4, 0]),
            (2, vec![0x7F, 0xFF, 4, 0]),
            (3, vec![0x7F, 0xFF, 4, 0])
        ]
    );
}

#[test]
fn the_overview_ends_with_what_to_do() {
    let disk = Disk {
        number: 1,
        path: "NVMe".to_string(),
        boot: false,
        model: None,
        block_size: 512,
        last_block: 2047,
        steamos: false,
        analysis: Err("cannot open disk".to_string()),
    };
    let lines = run_overview(&[disk], &state(), &scan());
    assert_eq!(
        texts(&lines),
        [
            "  Disks",
            "    Disk 1     1.0 MiB",
            "      GPT: could not be read - cannot open disk",
            "",
            "  Boot entries in NVRAM",
            "    4 entries in the store",
            "    3 entries in the boot order",
            "      first: Boot0002  Windows",
            "      this boot used Boot0001  SteamOS",
            "    1 entry will not decode",
            "    2 entries are not in the boot order, and will not be offered",
            "",
            "  Bootloaders on the ESPs",
            "    3 ESPs holding 2 bootloaders",
            "    1 ESP could not be opened",
            "    1 loader nothing in NVRAM points at",
            "",
            "  What to do next",
            "  An installed entry has fallen out of the boot order.",
            "    Boot entries (NVRAM) -> Set the default boot entry",
            "  A loader on an ESP has no boot entry pointing at it.",
            "    Boot entries (NVRAM) -> Register a bootloader",
            "",
            "  Nothing was written. This screen never modifies anything.",
        ]
    );
    let fine = BootState { order: Ok(vec![1]), entries: vec![(1, Ok(option("A")))], ..state() };
    let none = EspScan { volumes: vec![], candidates: vec![], unreadable: vec![] };
    let text = plain(&run_overview(&[], &fine, &none));
    assert!(text.contains("    No fixed, writable, whole disk was found.\n"), "{text}");
    assert!(text.contains("  Nothing here looks broken.\n"), "{text}");
    assert_eq!(count(1, "entry", "entries"), "1 entry");
    assert_eq!(count(0, "entry", "entries"), "0 entries");
}

fn change() -> Change {
    let line = |t: &str| Line { text: t.to_string(), style: Style::Key };
    Change {
        title: "Set the default".to_string(),
        review: vec![line("review")],
        warning: vec![line("warning")],
        writes: vec![write("BootOrder")],
    }
}

#[test]
fn a_change_is_reviewed_saved_authorised_and_then_written() {
    let c = change();
    match authorise_and_write(&c, &[]) {
        BootNext::Page { title, lines } => {
            assert_eq!(title, "Set the default");
            assert_eq!(
                texts(&lines),
                ["review", "", "  Will write, in this order:", "    BootOrder  (1 bytes)"]
            );
        }
        _ => panic!("the review was expected"),
    }
    assert!(matches!(authorise_and_write(&c, &[false]), BootNext::Done));
    assert!(matches!(authorise_and_write(&c, &[true]), BootNext::Snapshot));
    assert!(matches!(authorise_and_write(&c, &[true, false]), BootNext::Tell { .. }));
    match authorise_and_write(&c, &[true, true]) {
        BootNext::Gate { title, warning } => {
            assert_eq!(title, "Authorise NVRAM write");
            assert_eq!(texts(&warning), ["warning"]);
        }
        _ => panic!("the confirmation sequence was expected"),
    }
    match authorise_and_write(&c, &[true, true, false]) {
        BootNext::Tell { lines, .. } => {
            assert_eq!(texts(&lines), ["  Cancelled. Nothing was written."])
        }
        _ => panic!("it was cancelled"),
    }
    assert!(matches!(authorise_and_write(&c, &[true, true, true]), BootNext::Apply));
}

#[test]
fn what_landed_is_named_when_a_change_stops() {
    let writes = [write("Boot0005"), write("BootOrder")];
    let (title, lines) = report_applied("Register", &writes, &Ok(()));
    assert_eq!((title.as_str(), lines.len()), ("Register", 3));
    let (title, lines) = report_applied("Register", &writes, &Err((0, "locked".to_string())));
    assert_eq!(title, "Register FAILED");
    assert_eq!(lines[2].text, "  Nothing was written; NVRAM is as it was.");
    let (_, lines) = report_applied("Register", &writes, &Err((1, "locked".to_string())));
    assert_eq!(lines[2].text, "  1 of 2 writes had already landed:");
    assert_eq!(lines[3].text, "    Boot0005");
    assert_eq!(lines.len(), 8);
}

fn so_far() -> SoFar {
    SoFar {
        taken: false,
        esp_lost: true,
        warned: None,
        chosen: None,
        outcome: None,
        agreed: None,
    }
}

#[test]
fn a_change_needs_a_saved_copy_or_a_yes() {
    let esp = [Volume::boot("HD(1)".to_string(), None, false)];
    let go = |s: &SoFar| ensure_boot_snapshot(s, &esp, true);
    let mut s = so_far();
    assert!(matches!(go(&SoFar { taken: true, ..so_far() }), SnapshotNext::Settled(true)));
    assert!(matches!(go(&s), SnapshotNext::WarnEsp));
    s.warned = Some(false);
    assert!(matches!(go(&s), SnapshotNext::Settled(false)));
    s.warned = Some(true);
    assert!(matches!(go(&s), SnapshotNext::Choose));
    s.chosen = Some(false);
    assert!(matches!(go(&s), SnapshotNext::Settled(false)));
    s.chosen = Some(true);
    assert!(matches!(go(&s), SnapshotNext::Take));
    s.outcome = Some(Err("there is nothing in NVRAM to save".to_string()));
    match go(&s) {
        SnapshotNext::Ask { lines } => {
            assert_eq!(lines[0].text, "  there is nothing in NVRAM to save");
            assert_eq!(lines.last().unwrap().text, "  Continue without a saved copy?");
        }
        _ => panic!("it was to be asked"),
    }
    s.agreed = Some(true);
    assert!(matches!(go(&s), SnapshotNext::Settled(true)));
    s.agreed = Some(false);
    assert!(matches!(go(&s), SnapshotNext::Settled(false)));
    s.outcome = Some(Ok(Written { ok: vec![], failed: vec![] }));
    s.agreed = None;
    assert!(matches!(go(&s), SnapshotNext::Ask { .. }));
    let line = Line { text: "    \\BOOTFIXR\\boot.001".to_string(), style: Style::Key };
    s.outcome = Some(Ok(Written { ok: vec![line], failed: vec![] }));
    match go(&s) {
        SnapshotNext::Saved { lines } => {
            assert_eq!(lines[1].text, "    \\BOOTFIXR\\boot.001");
            assert_eq!(lines.len(), 5);
        }
        _ => panic!("it was saved"),
    }
}

#[test]
fn entries_are_chosen_in_the_order_the_firmware_tries_them() {
    let s = state();
    let slots = boot_slots(&s);
    assert_eq!(slots, vec![2, 1, 3, 4]);
    let rows = pick_boot_entry(&s, &paths(), &slots).unwrap();
    assert_eq!(rows[1].label, "Boot0001* SteamOS");
    assert_eq!(texts(&rows[1].detail), ["  HD(1)/steam"]);
    assert_eq!(texts(&rows[2].detail), ["  HD(1)/rescue", "  Not in the boot order."]);
    assert_eq!(rows[3].label, "Boot0004  (cannot be read)");
    assert!(pick_boot_entry(&s, &paths(), &[]).is_none());
    assert_eq!(no_boot_entries()[0].text, "  There are no boot entries in NVRAM.");
}

fn changed(p: Prepared) -> Change {
    match p {
        Prepared::Change(c) => c,
        _ => panic!("a change was expected"),
    }
}

fn refused(p: Prepared) -> (String, String) {
    match p {
        Prepared::Refused { title, lines } => (title, lines[0].text.clone()),
        _ => panic!("a refusal was expected"),
    }
}

#[test]
fn the_default_moves_to_the_front() {
    let s = state();
    assert!(run_boot_default(&s, None).is_none());
    let (_, why) = refused(run_boot_default(&s, Some(2)).unwrap());
    assert_eq!(why, "  Boot0002 is already first in the boot order.");
    let c = changed(run_boot_default(&s, Some(3)).unwrap());
    assert_eq!(
        texts(&c.review),
        [
            "  Boot order after:",
            "     1. Boot0003  Rescue",
            "     2. Boot0002  Windows",
            "     3. Boot0001  SteamOS",
            "     4. Boot0009  (no such entry)",
        ]
    );
    assert_eq!(c.warning[0].text, "  Boot0003  Rescue");
    assert_eq!(c.writes[0].name, "BootOrder");
    assert_eq!(c.writes[0].data, vec![3, 0, 2, 0, 1, 0, 9, 0]);
    let unread = BootState { order: Err("locked".to_string()), ..state() };
    let (title, why) = refused(run_boot_default(&unread, None).unwrap());
    assert_eq!(title, "Set the default");
    assert_eq!(why, "  BootOrder cannot be read - locked");
}

#[test]
fn booting_once_touches_one_variable() {
    let c = run_boot_once(&state(), 3);
    assert_eq!(c.review[0].text, "  Boot0003  Rescue");
    assert_eq!(c.warning.len(), 3);
    assert_eq!(c.writes.len(), 1);
    assert_eq!((c.writes[0].name.as_str(), &c.writes[0].data), ("BootNext", &vec![3, 0]));
    assert_eq!(run_boot_once(&state(), 4).review[0].text, "  Boot0004");
}

#[test]
fn a_loader_is_registered_in_the_first_free_slot() {
    let s = state();
    let found = scan();
    let new = new_loaders(&found);
    assert_eq!(new, vec![1]);
    let rows = loader_items(&found, &new);
    assert_eq!(rows[0].label, "unrecognised EFI binary  \\EFI\\odd\\thing.efi");
    assert_eq!(
        texts(&rows[0].detail),
        ["  on ESP 1, 2.0 KiB", "  will be called \"thing.efi (ESP 1)\""]
    );
    assert_eq!(placement_items().len(), 2);
    let c = &found.candidates[1];
    let made = run_boot_register(&s, c, 1, Ok(vec![0x7F, 0xFF, 4, 0]), "HD(1)/thing", false, 80);
    let made = changed(made);
    assert_eq!(texts(&made.review), ["  Boot0000  as  thing.efi", "", "  HD(1)/thing"]);
    assert_eq!(made.writes[0].name, "Boot0000");
    assert_eq!(bootopt::decode(&made.writes[0].data).unwrap().description, "thing.efi");
    assert_eq!(made.writes[1].data, vec![2, 0, 1, 0, 9, 0, 0, 0]);
    let first = changed(run_boot_register(&s, c, 1, Ok(vec![]), "", true, 80));
    assert_eq!(first.writes[1].data, vec![0, 0, 2, 0, 1, 0, 9, 0]);
    let (title, why) =
        refused(run_boot_register(&s, c, 1, Err("no path".to_string()), "", true, 80));
    assert_eq!((title.as_str(), why.as_str()), ("Register a bootloader", "  no path"));
    let full = BootState {
        entries: (0..=u16::MAX).map(|i| (i, Err(String::new()))).collect(),
        ..state()
    };
    let (_, why) = refused(run_boot_register(&full, c, 1, Ok(vec![]), "", true, 80));
    assert_eq!(why, "  every boot slot from Boot0000 to BootFFFF is taken");
}

#[test]
fn a_loader_is_chosen_before_its_place() {
    let found = scan();
    let next = |loader, place| choose_loader(&found, loader, place);
    assert!(matches!(next(None, None), RegisterNext::Choose { .. }));
    assert!(matches!(next(Some(None), None), RegisterNext::Done));
    assert!(matches!(next(Some(Some(0)), None), RegisterNext::Place { .. }));
    assert!(matches!(next(Some(Some(0)), Some(None)), RegisterNext::Done));
    assert!(matches!(
        next(Some(Some(0)), Some(Some(0))),
        RegisterNext::Ready { candidate: 1, first: true }
    ));
    assert!(matches!(
        next(Some(Some(0)), Some(Some(1))),
        RegisterNext::Ready { candidate: 1, first: false }
    ));
    let none = EspScan { volumes: vec![], candidates: vec![], unreadable: vec![] };
    match choose_loader(&none, None, None) {
        RegisterNext::Nothing { lines } => assert_eq!(lines.len(), 4),
        _ => panic!("there was nothing to register"),
    }
}

fn firmware() -> Firmware {
    Firmware { vendor: "INSYDE".to_string(), revision: 0x10203, uefi_major: 2, uefi_minor: 80 }
}

#[test]
fn a_boot_configuration_is_saved_and_put_back() {
    let vars = vec![
        ("Boot0001".to_string(), bootopt::encode(&option("SteamOS"))),
        ("BootOrder".to_string(), vec![1, 0]),
    ];
    let missed = vec!["Boot0002".to_string(), "Timeout".to_string()];
    let snap = boot_snapshot(
        "bootfixr",
        "1.1.0",
        &firmware(),
        Timestamp::default(),
        vars.clone(),
        &missed,
    )
    .unwrap();
    assert_eq!(
        snap.meta,
        [
            ("tool".to_string(), "bootfixr 1.1.0".to_string()),
            ("firmware".to_string(), "INSYDE rev 0x10203".to_string()),
            ("unread".to_string(), "Boot0002 Timeout".to_string()),
        ]
    );
    assert_eq!(
        boot_snapshot("a", "b", &firmware(), Timestamp::default(), vec![], &[]),
        Err("there is nothing in NVRAM to save".to_string())
    );
    let bytes = bootcfg::encode(&snap, &CRC);
    let looked = [Looked {
        volume: "the ESP".to_string(),
        files: Ok(vec![
            File { name: "boot.001".to_string(), data: Ok(bytes) },
            File { name: "boot.002".to_string(), data: Ok(vec![1; 40]) },
        ]),
    }];
    let found = load_boot(&looked, &CRC);
    assert_eq!((found.usable.len(), found.rejected.len()), (1, 1));
    let rows = boot_items(&found.usable);
    assert_eq!(rows[0].label, "boot.001  0000-00-00 00:00:00  1 entries");
    assert_eq!(
        texts(&rows[0].detail),
        ["  found on the ESP", "  written by bootfixr 1.1.0", "  on INSYDE rev 0x10203"]
    );
    let c = changed(run_boot_restore(&found.usable[0]));
    assert_eq!(c.title, "Restore the boot configuration");
    assert_eq!(c.writes.len(), 2);
    assert_eq!((c.writes[0].name.as_str(), &c.writes[0].data), ("Boot0001", &vars[0].1));
    assert_eq!((c.writes[1].name.as_str(), &c.writes[1].data), ("BootOrder", &vars[1].1));
    let empty = SavedBoot {
        name: "boot.009".to_string(),
        source: "X".to_string(),
        snapshot: Snapshot { time: Timestamp::default(), vars: vec![], meta: vec![] },
    };
    let (_, why) = refused(run_boot_restore(&empty));
    assert_eq!(why, "  boot.009 holds no variables to write.");
    assert_eq!(boot_items(&[empty])[0].detail[2].text, "  firmware not recorded");
}

#[test]
fn putting_a_boot_configuration_back_begins_with_what_there_is() {
    assert!(matches!(boot_restore_opening(true, None, None), Opening::WarnEsp));
    assert!(matches!(boot_restore_opening(true, Some(false), None), Opening::Done));
    assert!(matches!(boot_restore_opening(false, None, None), Opening::Load));
    assert!(matches!(boot_restore_opening(false, None, Some((1, vec![]))), Opening::Offer));
    match boot_restore_opening(false, None, Some((0, vec![]))) {
        Opening::Nothing { lines } => assert_eq!(
            lines[0].text,
            "  No usable boot snapshots in \\BOOTFIXR\\, on the ESP or"
        ),
        _ => panic!("there was nothing to offer"),
    }
}

#[test]
fn provenance_says_what_was_true_then() {
    let disk = Disk {
        number: 1,
        path: "NVMe(0x1)".to_string(),
        boot: true,
        model: Some("WD".to_string()),
        block_size: 512,
        last_block: 99,
        steamos: false,
        analysis: Err(String::new()),
    };
    let meta = provenance("bootfixr", "1.1.0", &firmware(), &disk, Some("HD(1)"));
    let shown: Vec<String> = meta.iter().map(|(k, v)| format!("{k}={v}")).collect();
    assert_eq!(
        shown,
        [
            "tool=bootfixr 1.1.0",
            "firmware=INSYDE rev 0x10203",
            "uefi=2.80",
            "device=NVMe(0x1)",
            "model=WD",
            "capacity=100 blocks x 512 B",
            "launched-from=HD(1)",
        ]
    );
    let quiet = Firmware { vendor: String::new(), ..firmware() };
    let plain = Disk { model: None, ..disk };
    assert_eq!(provenance("a", "b", &quiet, &plain, None).len(), 4);
}

#[test]
fn every_row_carries_its_action() {
    let m = main_menu();
    assert_eq!(m.items.len(), 5);
    assert_eq!(m.items[1].label, "Partition tables (GPT)  >");
    assert_eq!(m.chosen(0), Main::Overview);
    assert_eq!(m.chosen(4), Main::Exit);
    let g = gpt_menu();
    assert_eq!(g.items[3].label, "Repair main GPT from the secondary");
    assert_eq!(g.chosen(3), Gpt::Repair);
    assert_eq!(g.items[4].detail.len(), 3);
    let n = nvram_menu();
    assert_eq!(n.items[5].label, "Restore the boot configuration");
    assert_eq!(n.chosen(5), Nvram::Restore);
    assert_eq!(
        texts(&main_intro("1.1.0", None, 80)),
        ["  version 1.1.0", "  boot volume unknown - no disk will be marked [boot]"]
    );
    assert_eq!(main_intro("1", Some("HD(1)"), 80)[1].text, "  launched from HD(1)");
}
