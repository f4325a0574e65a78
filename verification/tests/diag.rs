use gptcore::diag::{
    describe_attributes, next_name, render_partitions, sequence_of, to_text, MAX_SEQUENCE,
};
use gptcore::entry::{PartitionEntry, NAME_LEN};
use gptcore::header::{GptHeader, GPT_SIGNATURE};
use gptcore::mbr::MbrStatus;
use gptcore::style::{self, plain, Line};
use gptcore::{Analysis, Guid, IoError, TableView, Verdict};

fn header() -> GptHeader {
    GptHeader {
        signature: GPT_SIGNATURE,
        revision: 0x0001_0000,
        header_size: 92,
        header_crc32: 0,
        reserved: 0,
        my_lba: 1,
        alternate_lba: 2047,
        first_usable_lba: 34,
        last_usable_lba: 2014,
        disk_guid: Guid::nil(),
        partition_entry_lba: 2,
        number_of_partition_entries: 128,
        size_of_partition_entry: 128,
        partition_entry_array_crc32: 0,
    }
}

fn view(entries: Vec<PartitionEntry>, entries_error: Option<IoError>) -> TableView {
    TableView {
        header: header(),
        raw: Vec::new(),
        entries_raw: Vec::new(),
        entries,
        defects: Vec::new(),
        entries_error,
    }
}

fn used(name: &str) -> PartitionEntry {
    let mut e = PartitionEntry {
        type_guid: Guid::from_fields(1, 0, 0, [0; 8]),
        unique_guid: Guid::from_fields(2, 0, 0, [0; 8]),
        starting_lba: 2048,
        ending_lba: 4095,
        attributes: 0,
        name: [0u16; NAME_LEN],
    };
    for (i, c) in name.encode_utf16().enumerate() {
        e.name[i] = c;
    }
    e
}

fn analysis(
    main: Result<TableView, IoError>,
    secondary: Result<TableView, IoError>,
) -> Analysis {
    Analysis {
        block_size: 512,
        last_block: 2047,
        mbr_raw: vec![0u8; 512],
        mbr: MbrStatus::Protective,
        main,
        secondary,
        verdict: Verdict::Healthy,
        recognition: None,
        rejection: None,
    }
}

/// An entry array that would not read leaves `entries` empty, which is
/// exactly the shape of a wiped table and means something else
/// entirely. Reporting "no partitions" would contradict the defect the
/// header block prints three lines above it, in a file whose whole
/// audience is somebody who cannot ask which one to believe.
#[test]
fn an_unreadable_entry_array_is_not_reported_as_an_empty_table() {
    let a = analysis(
        Ok(view(Vec::new(), Some(IoError::DeviceError))),
        Ok(view(vec![used("esp")], None)),
    );
    let text = plain(&render_partitions(&a));
    assert!(text.contains("the entry array could not be read"), "{text}");
    assert!(!text.contains("every entry in the array is unused"), "{text}");
    // And it is not a disagreement between the two tables: nothing was
    // read to disagree with.
    assert!(!text.contains("DIFFERENT"), "{text}");
}

/// The comparison still has to work, or the fix above would have bought
/// silence rather than accuracy.
#[test]
fn two_readable_tables_are_still_compared() {
    let same = analysis(
        Ok(view(vec![used("esp")], None)),
        Ok(view(vec![used("esp")], None)),
    );
    assert!(plain(&render_partitions(&same)).contains("exactly the same partitions"));

    let differs = analysis(
        Ok(view(vec![used("esp")], None)),
        Ok(view(vec![used("home")], None)),
    );
    assert!(plain(&render_partitions(&differs)).contains("DIFFERENT"));
}

#[test]
fn names_count_up_and_never_fill_a_gap() {
    assert_eq!(next_name(&[]).unwrap(), "diag-001.txt");
    let taken = vec!["diag-001.txt".to_string(), "diag-003.txt".to_string()];
    assert_eq!(next_name(&taken).unwrap(), "diag-004.txt");
}

#[test]
fn the_other_kinds_of_saved_file_are_not_reports() {
    assert_eq!(sequence_of("diag-007.txt"), Some(7));
    assert_eq!(sequence_of("DIAG-007.TXT"), Some(7));
    assert_eq!(sequence_of("gpt-007.bkp"), None);
    assert_eq!(sequence_of("boot-007.bkp"), None);
    assert_eq!(sequence_of("diag-7.txt"), None);
    assert_eq!(sequence_of("diag-007.txt.bak"), None);
}

#[test]
fn the_space_runs_out_rather_than_wrapping_round() {
    let taken = vec![format!("diag-{MAX_SEQUENCE:03}.txt")];
    assert!(next_name(&taken).is_none());
}

#[test]
fn the_file_is_crlf_and_carries_no_trailing_spaces() {
    let text = to_text(&[style::line("a  "), Line::blank(), style::line("b")]);
    assert_eq!(text, "a\r\n\r\nb\r\n");
}

#[test]
fn attribute_bits_are_named_where_the_spec_names_them() {
    assert_eq!(describe_attributes(0), "");
    assert_eq!(describe_attributes(1), "  [required]");
    assert_eq!(describe_attributes(4), "  [legacy-bios-bootable]");
    // A SteamOS priority field, which is type-specific and must not be
    // presented as though this crate knew what it meant.
    assert_eq!(describe_attributes(0x0006_0000_0000_0000), "  [type-specific bits 0x0006]");
}
