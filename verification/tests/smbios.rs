use gptcore::smbios::{mask, render, structures, HEADER, TYPE_END_OF_TABLE};
use gptcore::style::plain;

/// Build one structure: header, formatted area, then its strings.
fn structure(kind: u8, handle: u16, fields: &[u8], strings: &[&str]) -> Vec<u8> {
    let mut out = vec![kind, (HEADER + fields.len()) as u8];
    out.extend_from_slice(&handle.to_le_bytes());
    out.extend_from_slice(fields);
    for s in strings {
        out.extend_from_slice(s.as_bytes());
        out.push(0);
    }
    // The set is terminated by an empty string; one with no strings at
    // all still gets both NULs.
    out.push(0);
    out
}

/// A machine that names itself, the way a Deck's does.
fn table() -> Vec<u8> {
    let mut out = Vec::new();
    // Type 1: manufacturer, product, version, serial at 04..07, then a
    // UUID, a wake-up byte, SKU and family.
    let mut system = vec![1u8, 2, 3, 4];
    system.extend_from_slice(&[0xAA; 16]);
    system.extend_from_slice(&[6, 5, 6]);
    out.extend(structure(1, 0x0100, &system, &["Valve", "Jupiter", "1", "SERIAL123", "SKU9"]));
    // 04 vendor, 05 version, 06..07 starting segment, 08 release date.
    out.extend(structure(
        0,
        0x0000,
        &[1, 2, 0, 0, 3],
        &["Valve Corp", "F7A0131", "03/26/2024"],
    ));
    out.extend(structure(127, 0x7F00, &[], &[]));
    out
}

#[test]
fn the_machine_names_itself() {
    let text = plain(&render(&table()));
    for wanted in ["Valve", "Jupiter", "F7A0131", "03/26/2024", "SKU9"] {
        assert!(text.contains(wanted), "no {wanted:?} in:\n{text}");
    }
}

/// The serial is the one field a stranger reading the thread could use
/// against the owner, so it must not reach the file whole.
#[test]
fn the_serial_number_never_appears_in_full() {
    let text = plain(&render(&table()));
    assert!(!text.contains("SERIAL123"), "the serial was published:\n{text}");
    assert!(text.contains("SER****** (masked)"), "{text}");
    // Masked, not dropped: the owner still has to be able to match two
    // reports of their own machine to each other.
    assert!(text.contains("serial"), "{text}");
}

/// A table of one system structure with this serial and this end of a UUID.
fn system_with(serial: &str, end: u8) -> Vec<u8> {
    let mut system = vec![1u8, 2, 3, 4];
    system.extend_from_slice(&[0xAA; 4]);
    system.extend_from_slice(&[end; 12]);
    system.extend_from_slice(&[6, 5, 6]);
    structure(1, 0x0100, &system, &["Valve", "Jupiter", "1", serial, "SKU9"])
}

#[test]
fn machines_that_differ_where_masked_are_reported_alike() {
    let report = |serial, end| plain(&render(&system_with(serial, end)));
    assert_eq!(report("SERIAL123", 0x11), report("SERXYZ987", 0xFE));
    assert_eq!(report("ABCDE", 0x11), report("VWXYZ", 0x11));
    assert_ne!(report("SERIAL123", 0x11), report("OTHER1234", 0x11));
    assert_ne!(report("SERIAL123", 0x11), report("SERIAL1234", 0x11));
    assert_ne!(report("UNKNOWN", 0x11), report("UNKABCD", 0x11));
}

/// `Unknown` is firmware's own placeholder for an unset serial, not a
/// real one, so it is left as-is rather than turned into stars.
#[test]
fn an_unset_serial_is_not_masked() {
    let mut system = vec![1u8, 2, 3, 4];
    system.extend_from_slice(&[0xAA; 16]);
    system.extend_from_slice(&[6, 5, 6]);
    let table = structure(1, 0x0100, &system, &["Valve", "Jupiter", "1", "Unknown", "SKU9"]);
    let text = plain(&render(&table));
    assert!(text.contains("serial            : Unknown"), "{text}");
    assert!(!text.contains("(masked)"), "{text}");
}

/// A stub of a short value is most of the value. Below the threshold,
/// nothing is kept.
#[test]
fn masking_keeps_the_length_and_only_a_hint_of_the_value() {
    assert_eq!(mask("FMTBBK00A123"), "FMT********* (masked)");
    assert_eq!(mask("ABC123"), "ABC*** (masked)");
    assert_eq!(mask("ABCDE"), "***** (masked)");
    assert_eq!(mask("X"), "* (masked)");
    assert_eq!(mask(""), " (masked)");
}

/// The UUID keeps its shape so it still reads as one, and its first
/// group so two reports can be matched.
#[test]
fn the_uuid_keeps_only_its_first_group() {
    let text = plain(&render(&table()));
    assert!(text.contains("AAAAAAAA-****-****-****-************"), "{text}");
    assert!(!text.contains("AAAAAAAA-AAAA"), "the UUID was published:\n{text}");
}

/// A UUID is stored the way a GPT stores a GUID, so it must come out
/// looking like one and not byte-swapped.
/// A question mark is printable ASCII, and a string holding one is a
/// value to report rather than a field to discard.
#[test]
fn a_legitimate_question_mark_survives() {
    let bytes = structure(1, 0x0100, &[1, 2, 0, 0], &["Valve?", "Jupiter\u{7f}"]);
    let all = structures(&bytes);
    assert_eq!(all[0].string_at(0x04).as_deref(), Some("Valve?"));
    // Still nothing for a string with a byte outside printable ASCII,
    // which is the case the check exists for.
    assert_eq!(all[0].string_at(0x05), None);
}

/// A UUID is stored the way a GPT stores a GUID, so it must come out of
/// the structure looking like one rather than byte-swapped. Asserted on
/// the value itself, since the rendered line is masked.
#[test]
fn the_uuid_is_read_as_a_guid_and_not_byte_swapped() {
    let bytes = table();
    let all = structures(&bytes);
    let system = all.iter().find(|s| s.kind == 1).expect("a system structure");
    assert_eq!(
        system.guid_at(0x08).map(|g| g.to_text()).as_deref(),
        Some("AAAAAAAA-AAAA-AAAA-AAAA-AAAAAAAAAAAA")
    );
}

#[test]
fn the_walk_stops_at_the_end_of_table_structure() {
    let mut bytes = table();
    // Anything after the type 127 structure must not be reached.
    bytes.extend(structure(1, 0x0101, &[1, 0, 0, 0], &["NOT THIS ONE"]));
    let all = structures(&bytes);
    assert_eq!(all.last().map(|s| s.kind), Some(TYPE_END_OF_TABLE));
    assert!(!plain(&render(&bytes)).contains("NOT THIS ONE"));
}

/// A field the firmware never wrote is "not specified", not a blank.
#[test]
fn an_unset_string_reference_says_so() {
    let bytes = structure(1, 0x0100, &[1, 0, 0, 0], &["Valve"]);
    let all = structures(&bytes);
    assert_eq!(all[0].string_at(0x04).as_deref(), Some("Valve"));
    assert_eq!(all[0].string_at(0x05), None);
    assert!(plain(&render(&bytes)).contains("not specified"));
}

/// An older firmware declares a shorter structure, and reading a field
/// it does not have must answer nothing rather than the next
/// structure's bytes.
/// 0xFF means "not reported", and a version line reading 255.255 is a
/// bug report about this tool rather than about the machine.
#[test]
fn a_bios_release_the_firmware_does_not_report_is_left_out() {
    let unreported = structure(
        0,
        0,
        &[1, 0, 0, 0, 0, 0, 0, 0, 0, 0, 0, 0, 0, 0, 0, 0, 0xFF, 0xFF],
        &["Valve Corp"],
    );
    assert!(!plain(&render(&unreported)).contains("255"));
    let zeroed = structure(
        0,
        0,
        &[1, 0, 0, 0, 0, 0, 0, 0, 0, 0, 0, 0, 0, 0, 0, 0, 0, 0],
        &["Valve Corp"],
    );
    assert!(!plain(&render(&zeroed)).contains("release           : 0.0"));
    let real = structure(
        0,
        0,
        &[1, 0, 0, 0, 0, 0, 0, 0, 0, 0, 0, 0, 0, 0, 0, 0, 1, 15],
        &["Valve Corp"],
    );
    assert!(plain(&render(&real)).contains("1.15"));
}

#[test]
fn a_short_structure_is_not_read_past() {
    let bytes = structure(1, 0x0100, &[1, 2], &["Valve", "Jupiter"]);
    let all = structures(&bytes);
    assert_eq!(all[0].string_at(0x05).as_deref(), Some("Jupiter"));
    assert_eq!(all[0].string_at(0x07), None);
    assert_eq!(all[0].guid_at(0x08), None);
}

/// Truncation is the case that must not read past the buffer, since the
/// lengths driving the walk come out of the buffer itself.
#[test]
fn a_truncated_table_yields_what_was_readable() {
    let full = table();
    for cut in 1..full.len() {
        let all = structures(&full[..cut]);
        assert!(all.len() <= 3, "{cut}");
    }
}

#[test]
fn a_zero_length_structure_does_not_loop_for_ever() {
    // Length 0 is impossible in a real table and is exactly what would
    // make a naive walk stand still.
    let bytes = vec![1u8, 0, 0, 0, 0, 0];
    assert!(structures(&bytes).is_empty());
}

#[test]
fn nothing_at_all_is_reported_rather_than_panicked_on() {
    assert!(structures(&[]).is_empty());
    assert!(!plain(&render(&[])).is_empty());
}
