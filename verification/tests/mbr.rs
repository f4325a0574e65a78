use gptcore::mbr::{expected_size_in_lba, generate, inspect, MbrRecord, MbrStatus};

const LAST: u64 = 1_000_000;

#[test]
fn generated_mbr_validates_as_protective() {
    let mbr = generate(None, 512, LAST);
    assert_eq!(inspect(&mbr, LAST), MbrStatus::Protective);
}

#[test]
fn boot_code_survives_regeneration() {
    let mut old = vec![0u8; 512];
    old[..440].fill(0xAB);
    let mbr = generate(Some(&old), 512, LAST);
    assert!(mbr[..440].iter().all(|&b| b == 0xAB));
    assert_eq!(inspect(&mbr, LAST), MbrStatus::Protective);
}

#[test]
fn the_disk_signature_survives_regeneration() {
    let old = vec![0xCDu8; 512];
    let mbr = generate(Some(&old), 512, LAST);
    assert!(mbr[..444].iter().all(|&b| b == 0xCD));
    assert_eq!(&mbr[444..446], &[0, 0]);
    assert_eq!(&mbr[446..454], &[0, 0, 2, 0, 0xEE, 0xFF, 0xFF, 0xFF]);
    assert!(mbr[462..510].iter().all(|&b| b == 0));
    assert_eq!(&mbr[510..], &[0x55, 0xAA]);
    assert_eq!(inspect(&mbr, LAST), MbrStatus::Protective);
}

#[test]
fn zeroed_mbr_is_absent() {
    assert_eq!(inspect(&[0u8; 512], LAST), MbrStatus::Absent);
    assert!(inspect(&[0u8; 512], LAST).needs_repair());
}

#[test]
fn size_that_does_not_cover_the_disk_is_flagged() {
    let mbr = generate(None, 512, 500);
    match inspect(&mbr, LAST) {
        MbrStatus::WrongSize { found, expected } => {
            assert_eq!(found, 500);
            assert_eq!(expected, LAST as u32);
        }
        other => panic!("expected WrongSize, got {:?}", other),
    }
}

#[test]
fn hybrid_mbr_is_detected_and_never_repaired() {
    let mut mbr = generate(None, 512, LAST);
    // A second, real record next to the protective one.
    MbrRecord {
        boot_indicator: 0x80,
        start_chs: [0x00, 0x02, 0x00],
        os_type: 0x07, // NTFS
        end_chs: [0xFF, 0xFF, 0xFF],
        starting_lba: 2048,
        size_in_lba: 4096,
    }
    .write_to(&mut mbr[462..478]);
    assert_eq!(inspect(&mbr, LAST), MbrStatus::Hybrid);
    assert!(!inspect(&mbr, LAST).needs_repair());
}

#[test]
fn huge_disk_saturates_size_field() {
    assert_eq!(expected_size_in_lba(0xFFFF_FFFF_FFFF), u32::MAX);
}
