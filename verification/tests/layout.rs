use gptcore::entry::{PartitionEntry, NAME_LEN};
use gptcore::layout::{
    check_structure, recognize, steamos_partitions, Confidence, Kind, StructuralIssue,
};
use gptcore::Guid;

fn entry(name: &str, type_guid: Guid, start: u64, end: u64) -> PartitionEntry {
    let mut n = [0u16; NAME_LEN];
    for (i, c) in name.encode_utf16().enumerate() {
        n[i] = c;
    }
    PartitionEntry {
        type_guid,
        unique_guid: Guid::from_fields(start as u32, 0, 0, [0; 8]),
        starting_lba: start,
        ending_lba: end,
        attributes: 0,
        name: n,
    }
}

fn steamos_table() -> Vec<PartitionEntry> {
    let mut v = Vec::new();
    let mut lba = 2048u64;
    for (name, kind) in steamos_partitions() {
        v.push(entry(name, kind.guid(), lba, lba + 999));
        lba += 1000;
    }
    v
}

#[test]
fn stock_layout_is_recognized() {
    let r = recognize(&steamos_table());
    assert_eq!(r.confidence, Confidence::SteamOs);
    assert!(r.missing.is_empty());
    assert!(r.missing_critical.is_empty());
}

#[test]
fn windows_partitions_alongside_steamos_are_not_suspicious() {
    let mut table = steamos_table();
    table.push(entry("Basic data partition", Kind::MsBasicData.guid(), 100_000, 200_000));
    table.push(entry("", Kind::WindowsRecovery.guid(), 200_001, 210_000));
    let r = recognize(&table);
    assert_eq!(r.confidence, Confidence::SteamOs);
    assert!(r.unknown_types.is_empty(), "{:?}", r.unknown_types);
}

#[test]
fn a_table_without_esp_or_rootfs_is_never_trusted() {
    let table = vec![
        entry("var-A", Kind::LinuxFilesystem.guid(), 2048, 3000),
        entry("var-B", Kind::LinuxFilesystem.guid(), 3001, 4000),
        entry("home", Kind::LinuxFilesystem.guid(), 4001, 5000),
    ];
    let r = recognize(&table);
    assert_eq!(r.confidence, Confidence::Unrecognized);
    assert_eq!(r.missing_critical, vec!["esp", "rootfs-A"]);
}

#[test]
fn structure_of_stock_layout_is_clean() {
    assert!(check_structure(&steamos_table(), 2048, 100_000).is_empty());
}

#[test]
fn overlap_is_a_structural_issue() {
    let mut table = steamos_table();
    table[3].starting_lba = table[2].starting_lba;
    let issues = check_structure(&table, 2048, 100_000);
    assert!(
        issues.iter().any(|i| matches!(i, StructuralIssue::Overlap { .. })),
        "{:?}",
        issues
    );
}

#[test]
fn partition_past_the_end_of_the_disk_is_caught() {
    // The signature of a stale backup restored onto a smaller disk.
    let issues = check_structure(&steamos_table(), 2048, 5000);
    assert!(
        issues.iter().any(|i| matches!(i, StructuralIssue::OutsideUsableRange { .. })),
        "{:?}",
        issues
    );
}

#[test]
fn inverted_range_does_not_also_report_a_spurious_overlap() {
    let table = vec![entry("esp", Kind::EfiSystem.guid(), 5000, 100)];
    let issues = check_structure(&table, 2048, 100_000);
    assert_eq!(issues.len(), 1);
    assert!(matches!(issues[0], StructuralIssue::InvertedRange { .. }));
}

#[test]
fn empty_table_is_rejected() {
    assert_eq!(check_structure(&[], 2048, 100_000), vec![StructuralIssue::NoPartitions]);
}
