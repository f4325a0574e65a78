use gptcore::bootdev::{is_prefix_of, BootDevice, Node};
use gptcore::disk::{check_media, check_transfer, read_lbas, BlockDevice, IoError, Unusable};
use gptcore::drive::{ata_name, model, name_in, scsi_name};
use gptcore::fwcrc::{asks_firmware, settle};
use gptcore::probe::{bump, describe, scan_name, Range, Tally};
use gptcore::secureboot::{databases, flag, State};
use gptcore::smbios::{read_v1, read_v3, table};
use gptcore::version::{civil_from_days, compile_date, stamp};

fn node(n: u8) -> Node {
    Node { kind: 1, sub: n, data: vec![n, n] }
}

#[test]
fn a_disk_covers_the_partitions_on_it() {
    let disk = [node(1), node(2)];
    let partition = vec![node(1), node(2), node(3)];
    assert!(is_prefix_of(&disk, &partition));
    assert!(!is_prefix_of(&partition, &disk));
    let boot = BootDevice { path: Some(partition) };
    assert!(boot.is_known());
    assert!(boot.covers(&disk));
    assert!(!boot.covers(&[node(9)]));
    let unknown = BootDevice { path: None };
    assert!(!unknown.is_known());
    assert!(unknown.path().is_none());
}

#[test]
fn an_odd_device_is_refused() {
    assert_eq!(check_media(true, 512, 0), Ok(()));
    assert_eq!(check_media(true, 4096, 8), Ok(()));
    assert_eq!(check_media(false, 512, 0), Err(Unusable::NoMedia));
    assert_eq!(check_media(true, 520, 0), Err(Unusable::BlockSize));
    assert_eq!(check_media(true, 131072, 0), Err(Unusable::BlockSize));
    assert_eq!(check_media(true, 512, 16), Err(Unusable::Alignment));
    assert_eq!(Unusable::NoMedia.to_text(), "no media present");
    assert_eq!(check_transfer(1024, 512, true, false), Ok(()));
    assert_eq!(check_transfer(1024, 512, false, true), Ok(()));
    assert_eq!(check_transfer(1024, 512, true, true), Err(IoError::ReadOnly));
    assert_eq!(check_transfer(100, 512, false, false), Err(IoError::Unaligned));
    assert_eq!(IoError::OutOfRange.to_text(), "request past end of device");
}

struct Ones;

impl BlockDevice for Ones {
    fn block_size(&self) -> u32 {
        512
    }

    fn last_block(&self) -> u64 {
        9
    }

    fn read_blocks(&mut self, _lba: u64, buf: &mut [u8]) -> Result<(), IoError> {
        buf.fill(1);
        Ok(())
    }

    fn write_blocks(&mut self, _lba: u64, _buf: &[u8]) -> Result<(), IoError> {
        Err(IoError::ReadOnly)
    }

    fn flush(&mut self) -> Result<(), IoError> {
        Ok(())
    }
}

#[test]
fn a_read_past_the_end_never_reaches_the_device() {
    assert_eq!(read_lbas(&mut Ones, 8, 2), Ok(vec![1; 1024]));
    assert_eq!(read_lbas(&mut Ones, 9, 2), Err(IoError::OutOfRange));
    assert_eq!(read_lbas(&mut Ones, u64::MAX, 1), Err(IoError::OutOfRange));
    assert_eq!(read_lbas(&mut Ones, 0, u64::MAX), Err(IoError::OutOfRange));
}

#[test]
fn a_drive_is_named_by_what_it_says_of_itself() {
    assert_eq!(name_in(b"  WD Black \0junk"), "WD Black");
    assert_eq!(name_in(b"bad\x01name"), "");
    assert_eq!(name_in(b"what?"), "");
    let mut inquiry = vec![0u8; 36];
    inquiry[8..16].copy_from_slice(b"ACME    ");
    inquiry[16..32].copy_from_slice(b"Disk 9000       ");
    assert_eq!(scsi_name(&inquiry).as_deref(), Some("ACME Disk 9000"));
    assert_eq!(scsi_name(&inquiry[..20]), None);
    let mut identify = vec![b' '; 512];
    // Each pair of characters is stored the other way round.
    identify[54..60].copy_from_slice(b"aSsmnu");
    assert_eq!(ata_name(&identify).as_deref(), Some("Samsun"));
    assert_eq!(model(true, Some(&inquiry), Some(&identify)).as_deref(), Some("Samsun"));
    assert_eq!(model(false, Some(&inquiry), Some(&identify)).as_deref(), Some("ACME Disk 9000"));
    assert_eq!(model(true, None, None), None);
    let mut short = vec![b' '; 36];
    short[8] = b'x';
    assert_eq!(model(false, Some(&short), None), None, "a name that short is noise");
}

#[test]
fn the_firmware_is_believed_until_it_will_not_answer() {
    assert!(!asks_firmware(&[]));
    assert!(asks_firmware(b"123456789"));
    assert_eq!(settle(b"123456789", Some(7)), (7, false));
    assert_eq!(settle(b"123456789", None), (0xCBF4_3926, true));
    assert_eq!(settle(&[], None), (0, false));
}

#[test]
fn secure_boot_is_summed_up_in_a_line() {
    let state = |secure_boot, setup_mode| State {
        secure_boot,
        setup_mode,
        audit_mode: None,
        deployed_mode: None,
        vendor_keys: None,
        databases: vec![],
    };
    assert_eq!(state(None, None).summary(), "not implemented by this firmware");
    assert_eq!(state(Some(1), Some(0)).summary(), "ENABLED - signatures are being enforced");
    assert_eq!(state(Some(1), Some(1)).summary(), "enabled, but the firmware is in setup mode");
    assert_eq!(state(Some(0), Some(1)).summary(), "disabled, and the firmware is in setup mode");
    assert_eq!(state(Some(0), None).summary(), "disabled");
    assert_eq!(state(None, Some(0)).summary(), "no SecureBoot variable, so not enforced");
    assert_eq!(flag(Some(&[1])), Some(1));
    assert_eq!(flag(Some(&[1, 0])), None);
    assert_eq!(flag(None), None);
    let names: Vec<&str> = databases().iter().map(|d| d.0).collect();
    assert!(names.contains(&"PK") && names.contains(&"dbx"), "{names:?}");
}

#[test]
fn a_table_is_where_its_entry_point_says() {
    let mut v3 = vec![0u8; 0x18];
    v3[..5].copy_from_slice(b"_SM3_");
    v3[0x0C..0x10].copy_from_slice(&4096u32.to_le_bytes());
    v3[0x10..0x18].copy_from_slice(&0x7000_0000u64.to_le_bytes());
    assert_eq!(read_v3(&v3), Some((0x7000_0000, 4096)));
    let mut v1 = vec![0u8; 0x1F];
    v1[..4].copy_from_slice(b"_SM_");
    v1[0x16..0x18].copy_from_slice(&512u16.to_le_bytes());
    v1[0x18..0x1C].copy_from_slice(&0x1000u32.to_le_bytes());
    assert_eq!(read_v1(&v1), Some((0x1000, 512)));
    assert_eq!(table(Some(&v3), Some(&v1)), Some((0x7000_0000, 4096)));
    assert_eq!(table(None, Some(&v1)), Some((0x1000, 512)));
    assert_eq!(table(None, None), None);
    assert_eq!(read_v3(&v3[..0x17]), None);
    v3[0] = b'x';
    assert_eq!(read_v3(&v3), None);
    assert_eq!(table(Some(&v3), Some(&v1)), Some((0x1000, 512)));
    v1[0x18..0x1C].fill(0);
    assert_eq!(read_v1(&v1), None);
}

#[test]
fn a_tally_counts_what_arrived() {
    let mut list = vec![];
    bump(&mut list, 1);
    bump(&mut list, 2);
    bump(&mut list, 1);
    assert_eq!(list, vec![(1, 2), (2, 1)]);
    assert_eq!(scan_name(1), "UP");
    assert_eq!(scan_name(0x0B), "F-key");
    assert_eq!(scan_name(0x99), "?");
    let mut r = Range::new();
    r.add(5);
    r.add(-3);
    assert_eq!((r.min, r.max), (-3, 5));
    let mut t = Tally::new(1, 1);
    t.unicode = vec![(0x0D, 3)];
    t.scan = vec![(1, 2)];
    t.pointers[0].add(1, -2, 0, true, false);
    t.touches[0].add(10, 20, 30, 5);
    let lines = t.summary();
    assert!(lines.iter().any(|l| l.starts_with("    KEY unicode=0x000d")), "{lines:?}");
    assert!(lines.contains(&"    KEY scan=0x0001 UP x2".to_string()), "{lines:?}");
    assert!(lines.iter().any(|l| l.starts_with("    TOUCH0 events=1 x=")), "{lines:?}");
    assert_eq!(
        describe((0, 4095), (0, 4095), (0, 1), 0x10),
        "x 0..4095, y 0..4095, z 0..1, attrs 0x10"
    );
}

#[test]
fn the_version_says_where_it_was_built_from() {
    let shown = |describe| stamp("1.1.0", describe);
    assert_eq!(shown("v1.1.0"), ("1.1.0".to_string(), false));
    assert_eq!(shown("v1.0.0"), ("1.1.0".to_string(), true), "the tag is not this version's");
    assert_eq!(shown("v1.1.0-dirty"), ("1.1.0+dirty".to_string(), false));
    assert_eq!(shown("v1.1.0-3-g1a2b3c4").0, "1.1.0+3.g1a2b3c4");
    assert_eq!(shown("v1.1.0-3-g1a2b3c4-dirty").0, "1.1.0+3.g1a2b3c4.dirty");
    assert_eq!(shown("1a2b3c4").0, "1.1.0+g1a2b3c4");
    assert_eq!(civil_from_days(0), (1970, 1, 1));
    assert_eq!(civil_from_days(19_782), (2024, 2, 29));
    assert_eq!(civil_from_days(-1), (1969, 12, 31));
    assert_eq!(compile_date(0), "1970-01-01T00:00:00Z");
    assert_eq!(compile_date(1_709_210_096), "2024-02-29T12:34:56Z");
}
