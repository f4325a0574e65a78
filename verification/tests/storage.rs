use gptcore::order::{sorted_names, sorted_order};
use gptcore::paths::{
    boot_path_note, check_filename, check_variable_name, is_device_path, path_nodes,
};
use gptcore::style::{Line, Style};
use gptcore::volumes::{
    attach_hint, boot_name, check_listing, check_size, choose_destinations, gpt_name, is_table_file,
    list, list_tables, names,
    on_disk_only, plan_snapshot, removable, saved_path, taken_error, volume_info, volume_lines,
    write_snapshot, Attached, Choosing, Entry, Kind, Listing, Places, Volume, Written,
};

fn texts(lines: &[Line]) -> Vec<&str> {
    lines.iter().map(|l| l.text.as_str()).collect()
}

fn strings(v: &[&str]) -> Vec<String> {
    v.iter().map(|s| s.to_string()).collect()
}

fn stick(name: &str) -> Volume {
    Volume { name: name.to_string(), path: format!("USB/{name}"), free: None, removable: true }
}

fn esp() -> Volume {
    Volume::boot("HD(1)".to_string(), Some(1 << 20), false)
}

/// A device path node.
fn node(kind: u8, sub: u8, data: &[u8]) -> Vec<u8> {
    let mut out = vec![kind, sub];
    out.extend(((data.len() + 4) as u16).to_le_bytes());
    out.extend(data);
    out
}

fn end() -> Vec<u8> {
    node(0x7F, 0xFF, &[])
}

#[test]
fn a_name_the_firmware_cannot_hold_is_refused() {
    assert_eq!(check_filename("gpt.001"), Ok(()));
    assert_eq!(check_filename("caf\u{e9}"), Ok(()));
    assert_eq!(check_filename("a\0b"), Err("a\0b is not a usable filename".to_string()));
    assert_eq!(
        check_filename("\u{1F600}"),
        Err("\u{1F600} is not a usable filename".to_string())
    );
    assert_eq!(check_variable_name("Boot0001"), Ok(()));
    assert_eq!(
        check_variable_name("Boot\u{1F600}"),
        Err("Boot\u{1F600} is not a usable variable name".to_string())
    );
}

#[test]
fn a_device_path_ends_before_its_bytes_do() {
    assert!(is_device_path(&end()));
    let mut path = node(1, 1, &[0; 2]);
    path.extend(node(4, 1, &[7; 38]));
    assert!(!is_device_path(&path), "nothing ends it");
    path.extend(end());
    assert!(is_device_path(&path));
    path.extend([1, 2, 3]);
    assert!(is_device_path(&path), "what follows the end is not looked at");
    assert!(!is_device_path(&path[..10]));
    assert!(!is_device_path(&[]));
    assert!(!is_device_path(&[1, 1, 0, 0, 0x7F, 0xFF, 4, 0]), "a node of no length");
    assert!(!is_device_path(&[1, 1, 3, 0, 0x7F, 0xFF, 4, 0]), "shorter than its header");
}

#[test]
fn a_path_falls_into_its_nodes() {
    let mut path = node(1, 1, &[0, 9]);
    path.extend(node(0x7F, 1, &[]));
    path.extend(node(4, 1, &[7; 3]));
    path.extend(end());
    let nodes = path_nodes(&path).unwrap();
    let shown: Vec<(u8, u8, Vec<u8>)> =
        nodes.into_iter().map(|n| (n.kind, n.sub, n.data)).collect();
    assert_eq!(shown, [(1, 1, vec![0, 9]), (0x7F, 1, vec![]), (4, 1, vec![7; 3])]);
    assert!(path_nodes(&end()).unwrap().is_empty());
    assert!(path_nodes(&path[..7]).is_none());
}

#[test]
fn no_path_and_a_broken_path_are_told_apart() {
    assert_eq!(boot_path_note(&[]), Some(String::new()));
    assert_eq!(boot_path_note(&end()), None);
    assert_eq!(
        boot_path_note(&[1, 2, 3]),
        Some("<3 bytes that are not a device path>".to_string())
    );
}

#[test]
fn names_are_listed_in_order() {
    let v = strings(&["gpt.010", "Gpt.002", "gpt.001", "gpt.001"]);
    assert_eq!(sorted_names(&v), strings(&["Gpt.002", "gpt.001", "gpt.001", "gpt.010"]));
    assert_eq!(sorted_order(&v), vec![1, 2, 3, 0], "equal names keep their order");
    assert_eq!(sorted_names(&strings(&["ab", "a", ""])), strings(&["", "a", "ab"]));
    assert_eq!(sorted_names(&strings(&["\u{e9}", "z"])), strings(&["z", "\u{e9}"]));
}

#[test]
fn a_volume_says_what_it_is() {
    assert_eq!(volume_info(false, "  SD_CARD ", 5), Ok((Some("SD_CARD".to_string()), Some(5))));
    assert_eq!(volume_info(false, "  ", 5), Ok((None, Some(5))));
    assert_eq!(volume_info(true, "X", 5), Err("mounted read-only".to_string()));
    assert_eq!(
        texts(&volume_lines(&esp(), 80)),
        ["    the ESP this program was launched from", "      1.0 MiB free", "      HD(1)"]
    );
    assert_eq!(volume_lines(&stick("A"), 80).len(), 2);
}

fn attached(path: &str, label: Option<&str>) -> Attached {
    Attached {
        launch: false,
        removable: true,
        present: true,
        read_only: false,
        path: path.to_string(),
        info: Ok((label.map(|l| l.to_string()), Some(9))),
    }
}

#[test]
fn removable_volumes_are_sorted_and_named() {
    let found = [
        attached("c", None),
        Attached { launch: true, ..attached("a", Some("SELF")) },
        attached("b", Some("SD")),
        attached("a", None),
        Attached { read_only: true, ..attached("0", None) },
        Attached { present: false, ..attached("0", None) },
        Attached { removable: false, ..attached("0", None) },
        Attached { info: Err("mounted read-only".to_string()), ..attached("0", None) },
    ];
    let r = removable(&found);
    let shown: Vec<(usize, &str, &str)> =
        r.iter().map(|(i, v)| (*i, v.name.as_str(), v.path.as_str())).collect();
    assert_eq!(
        shown,
        [(3, "Removable volume 1", "a"), (2, "SD", "b"), (0, "Removable volume 2", "c")]
    );
    assert!(r.iter().all(|(_, v)| v.removable && v.free == Some(9)));
}

fn entry(name: &str, directory: bool) -> Entry {
    Entry { name: name.to_string(), directory }
}

#[test]
fn a_listing_keeps_its_own_kind() {
    let dir = [
        entry("GPT.002", false),
        entry("gpt.001", false),
        entry("gpt.003", true),
        entry("boot.001", false),
        entry("notes.txt", false),
    ];
    assert_eq!(list(&dir, Kind::Gpt), strings(&["GPT.002", "gpt.001"]));
    assert_eq!(list(&dir, Kind::Boot), strings(&["boot.001"]));
    assert_eq!(list_tables(&dir), strings(&["GPT.002", "gpt.001"]));
    assert!(is_table_file("Disk0.BIN"));
    assert!(is_table_file("gpt.old"));
    assert!(!is_table_file("bin"));
    assert!(!is_table_file("agpt.1"));
    assert_eq!(
        names(&dir),
        strings(&["GPT.002", "boot.001", "gpt.001", "gpt.003", "notes.txt"])
    );
}

#[test]
fn a_directory_full_of_files_is_not_read_whole() {
    assert_eq!(check_listing(63, 0), Ok(()));
    let why = "not read: \\BOOTFIXR\\ holds more than 64 files or 16 MiB of them".to_string();
    assert_eq!(check_listing(64, 0), Err(why.clone()));
    assert_eq!(check_listing(0, 16 << 20), Err(why));
    assert_eq!(check_size(4 << 20), Ok(()));
    assert_eq!(
        check_size((4 << 20) + 1),
        Err("4194305 bytes; too large to be a snapshot".to_string())
    );
}

fn chosen(c: Choosing) -> Option<Places> {
    match c {
        Choosing::Chosen(p) => Some(p),
        _ => None,
    }
}

#[test]
fn with_nothing_removable_there_is_no_question() {
    assert_eq!(
        chosen(choose_destinations(&[], &[], 80)),
        Some(Places { launch: true, stick: None })
    );
}

#[test]
fn one_stick_is_one_question() {
    let one = [stick("SD")];
    match choose_destinations(&one, &[], 80) {
        Choosing::Where { items, intro } => {
            assert_eq!(intro.len(), 2);
            assert_eq!(items[0].label, "Save to both");
            assert_eq!(items[0].detail[0].text, "  One copy on the ESP, one on SD.");
            assert_eq!(items[1].label, "Save to the ESP only");
            assert_eq!(items[2].label, "Save to SD only");
            assert_eq!(items[2].detail[0].text, "  Write it to SD and nowhere else.");
        }
        _ => panic!("a destination was to be asked for"),
    }
    let answer = |row| chosen(choose_destinations(&one, &[Some(row)], 80));
    assert_eq!(answer(0), Some(Places { launch: true, stick: Some(0) }));
    assert_eq!(answer(1), Some(Places { launch: true, stick: None }));
    assert_eq!(answer(2), Some(Places { launch: false, stick: Some(0) }));
    assert!(matches!(choose_destinations(&one, &[None], 80), Choosing::BackedOut));
}

#[test]
fn two_sticks_are_two_questions() {
    let two = [stick("A"), stick("B")];
    match choose_destinations(&two, &[], 80) {
        Choosing::Which { items, .. } => assert_eq!(items[1].label, "B"),
        _ => panic!("which one was to be asked"),
    }
    assert!(matches!(choose_destinations(&two, &[None], 80), Choosing::BackedOut));
    match choose_destinations(&two, &[Some(1)], 80) {
        Choosing::Where { items, .. } => assert_eq!(items[2].label, "Save to B only"),
        _ => panic!("a destination was to be asked for"),
    }
    assert_eq!(
        chosen(choose_destinations(&two, &[Some(1), Some(0)], 80)),
        Some(Places { launch: true, stick: Some(1) })
    );
}

#[test]
fn the_hint_is_for_someone_who_was_never_asked() {
    assert!(on_disk_only(&[esp()]));
    assert!(!on_disk_only(&[esp(), stick("A")]));
    assert_eq!(attach_hint(&[esp()], false).len(), 4);
    assert!(attach_hint(&[esp()], true).is_empty());
    assert!(attach_hint(&[stick("A")], false).is_empty());
}

#[test]
fn a_snapshot_is_numbered_from_everything_in_sight() {
    let dests = [esp(), stick("A")];
    let listed: [Listing; 2] =
        [Ok(strings(&["gpt.001", "boot.007"])), Err("cannot open".to_string())];
    let others: [Listing; 2] = [Ok(strings(&["GPT.004"])), Err("gone".to_string())];
    let s = plan_snapshot(&dests, &listed, &others, Kind::Gpt).unwrap();
    assert_eq!(s.name, "gpt.005");
    assert_eq!(s.usable, vec![0]);
    assert_eq!(texts(&s.failed), ["    A - cannot open"]);
    let s = plan_snapshot(&dests, &listed, &others, Kind::Boot).unwrap();
    assert_eq!(s.name, "boot.008");
    let none: [Listing; 2] = [Err("x".to_string()), Err("y".to_string())];
    let s = plan_snapshot(&dests, &none, &others, Kind::Gpt).unwrap();
    assert!(s.usable.is_empty());
    assert_eq!(s.failed.len(), 2);
    let full: [Listing; 2] = [Ok(strings(&["gpt.999"])), Ok(vec![])];
    assert_eq!(
        plan_snapshot(&dests, &full, &[], Kind::Gpt).err(),
        Some("\\BOOTFIXR\\ already holds gpt.999; delete some snapshots first".to_string())
    );
    assert_eq!(gpt_name(&[]), Ok("gpt.001".to_string()));
    assert_eq!(
        boot_name(&strings(&["boot.999"])),
        Err("\\BOOTFIXR\\ already holds boot.999; delete some first".to_string())
    );
}

#[test]
fn both_outcomes_of_a_save_are_carried_back() {
    let dests = [esp(), stick("A"), stick("B")];
    let listed: [Listing; 3] = [Ok(vec![]), Err("no".to_string()), Ok(vec![])];
    let s = plan_snapshot(&dests, &listed, &[], Kind::Gpt).unwrap();
    let w = write_snapshot(
        &dests,
        &s,
        &[Ok("\\BOOTFIXR\\gpt.001".to_string()), Err("full".to_string())],
    );
    assert!(w.any());
    assert_eq!(
        texts(&w.lines()),
        [
            "    \\BOOTFIXR\\gpt.001",
            "      on the ESP this program was launched from",
            "",
            "  But not everywhere:",
            "    A - no",
            "    B - full",
        ]
    );
    assert_eq!(w.ok[0].style, Style::Key);
    let w = Written { ok: vec![], failed: vec![] };
    assert!(!w.any());
    assert!(w.lines().is_empty());
    assert_eq!(saved_path("gpt.001"), "\\BOOTFIXR\\gpt.001");
    assert_eq!(
        taken_error("gpt.001"),
        "\\BOOTFIXR\\gpt.001 already exists; refusing to replace it"
    );
}
