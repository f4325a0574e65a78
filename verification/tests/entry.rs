use gptcore::entry::{parse_array, PartitionEntry};
use gptcore::Guid;

fn sample() -> Vec<u8> {
    let mut e = vec![0u8; 128];
    // ESP type GUID.
    e[0..16].copy_from_slice(
        Guid::from_fields(
            0xC12A_7328,
            0xF81F,
            0x11D2,
            [0xBA, 0x4B, 0x00, 0xA0, 0xC9, 0x3E, 0xC9, 0x3B],
        )
        .as_bytes(),
    );
    e[32..40].copy_from_slice(&2048u64.to_le_bytes());
    e[40..48].copy_from_slice(&(2048u64 + 524_288 - 1).to_le_bytes());
    for (i, c) in "esp".encode_utf16().enumerate() {
        e[56 + i * 2..58 + i * 2].copy_from_slice(&c.to_le_bytes());
    }
    e
}

#[test]
fn parses_name_and_extent() {
    let e = PartitionEntry::parse(&sample()).unwrap();
    assert!(e.is_used());
    assert_eq!(e.name_string(), "esp");
    assert_eq!(e.starting_lba, 2048);
    assert_eq!(e.block_count(), Some(524_288));
}

#[test]
fn zero_entry_is_unused() {
    let e = PartitionEntry::parse(&[0u8; 128]).unwrap();
    assert!(!e.is_used());
    assert_eq!(e.name_string(), "");
}

#[test]
fn inverted_range_has_no_block_count() {
    let mut raw = sample();
    raw[40..48].copy_from_slice(&0u64.to_le_bytes());
    assert_eq!(PartitionEntry::parse(&raw).unwrap().block_count(), None);
}

#[test]
fn respects_a_stride_larger_than_the_entry() {
    let mut bytes = vec![0u8; 256];
    bytes[..128].copy_from_slice(&sample());
    // With stride 256 there is exactly one entry, not two.
    let entries = parse_array(&bytes, 1, 256);
    assert_eq!(entries.len(), 1);
    assert_eq!(entries[0].name_string(), "esp");
}

#[test]
fn overlap_detection_is_inclusive() {
    let mut a = PartitionEntry::parse(&sample()).unwrap();
    let mut b = a;
    a.starting_lba = 100;
    a.ending_lba = 199;
    b.starting_lba = 199;
    b.ending_lba = 299;
    assert!(a.overlaps(&b));
    b.starting_lba = 200;
    assert!(!a.overlaps(&b));
}
