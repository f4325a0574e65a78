use gptcore::backup::{self, Timestamp};
use gptcore::bootdev::{BootDevice, Node};
use gptcore::disk::{BlockDevice, IoError};
use gptcore::disks::{
    self, disk_items, execute, found_disk, is_candidate, is_offered, read_disk, report_write, Disk,
    Media, Picking,
};
use gptcore::flows::{
    report_backup, run_backup, run_check, run_prevent, run_reboot, run_repair, run_restore,
    run_restore_from, take_snapshot, warn_esp_may_be_gone, BackupNext, BackupSoFar, Next,
    RestoreNext, RestoreSoFar,
};
use gptcore::repair::{analyze, apply, RepairPlan, Step, Verdict};
use gptcore::rescue;
use gptcore::saved::{self, attribute, load_saved, look, saved_intro, saved_items, File, Looked, Opening};
use gptcore::style::{plain, Line, Style};
use gptcore::volumes::{Volume, Written};
use gptcore::{Guid, SoftCrc32};
use std::cell::RefCell;
use std::collections::BTreeMap;
use std::rc::Rc;

const CRC: SoftCrc32 = SoftCrc32;
const BLOCK_SIZE: u32 = 512;

/// The blocks of a disk that are not all zero.
type Blocks = Rc<RefCell<BTreeMap<u64, Vec<u8>>>>;

/// A `BlockDevice` over an image, which fails every write after the first
/// `allowed`.
struct Dev {
    blocks: Blocks,
    sectors: u64,
    allowed: usize,
}

impl BlockDevice for Dev {
    fn block_size(&self) -> u32 {
        BLOCK_SIZE
    }

    fn last_block(&self) -> u64 {
        self.sectors - 1
    }

    fn read_blocks(&mut self, lba: u64, buf: &mut [u8]) -> Result<(), IoError> {
        for (i, b) in buf.chunks_mut(BLOCK_SIZE as usize).enumerate() {
            match self.blocks.borrow().get(&(lba + i as u64)) {
                Some(data) => b.copy_from_slice(data),
                None => b.fill(0),
            }
        }
        Ok(())
    }

    fn write_blocks(&mut self, lba: u64, buf: &[u8]) -> Result<(), IoError> {
        if self.allowed == 0 {
            return Err(IoError::DeviceError);
        }
        self.allowed -= 1;
        for (i, b) in buf.chunks(BLOCK_SIZE as usize).enumerate() {
            self.blocks.borrow_mut().insert(lba + i as u64, b.to_vec());
        }
        Ok(())
    }

    fn flush(&mut self) -> Result<(), IoError> {
        Ok(())
    }
}

struct Image {
    blocks: Blocks,
    sectors: u64,
}

impl Image {
    fn dev(&self) -> Dev {
        Dev { blocks: self.blocks.clone(), sectors: self.sectors, allowed: 1000 }
    }

    fn write_lba(&self, lba: u64, data: &[u8]) {
        self.dev().write_blocks(lba, data).unwrap();
    }

    fn read_lba(&self, lba: u64, count: u64) -> Vec<u8> {
        let mut buf = vec![0u8; (count * BLOCK_SIZE as u64) as usize];
        self.dev().read_blocks(lba, &mut buf).unwrap();
        buf
    }

    fn zero_lba(&self, lba: u64, count: u64) {
        self.write_lba(lba, &vec![0u8; (count * BLOCK_SIZE as u64) as usize]);
    }

    /// The disk as it is listed, the first of those found.
    fn found(&self, boot: bool) -> Disk {
        let analysis = read_disk(&mut self.dev(), &CRC);
        let nodes = vec![node(1)];
        let boot_device =
            BootDevice { path: if boot { Some(vec![node(1), node(2)]) } else { None } };
        found_disk(
            0,
            "PciRoot(0x0)/NVMe(0x1)".to_string(),
            Some(&nodes),
            &boot_device,
            Some("Drive".to_string()),
            BLOCK_SIZE,
            self.sectors - 1,
            analysis,
        )
    }
}

fn node(n: u8) -> Node {
    Node { kind: 1, sub: n, data: vec![n] }
}

fn reference_crc(data: &[u8]) -> u32 {
    let mut crc = !0u32;
    for b in data {
        crc ^= *b as u32;
        for _ in 0..8 {
            crc = if crc & 1 != 0 { (crc >> 1) ^ 0xEDB8_8320 } else { crc >> 1 };
        }
    }
    !crc
}

fn esp_type() -> Guid {
    Guid::from_fields(0xC12A_7328, 0xF81F, 0x11D2, [0xBA, 0x4B, 0, 0xA0, 0xC9, 0x3E, 0xC9, 0x3B])
}

fn basic_data() -> Guid {
    Guid::from_fields(
        0xEBD0_A0A2,
        0xB9E5,
        0x4433,
        [0x87, 0xC0, 0x68, 0xB6, 0xB7, 0x26, 0x99, 0xC7],
    )
}

fn reserved() -> Guid {
    Guid::from_fields(
        0xE3C9_E316,
        0x0B5C,
        0x4DB8,
        [0x81, 0x7D, 0xF9, 0x2D, 0xF0, 0x02, 0x15, 0xAE],
    )
}

fn recovery() -> Guid {
    Guid::from_fields(
        0xDE94_BBA4,
        0x06D1,
        0x4D40,
        [0xA1, 0x6A, 0xBF, 0xD5, 0x01, 0x79, 0xD6, 0xAC],
    )
}

fn root_type() -> Guid {
    Guid::from_fields(
        0x4F68_BCE3,
        0xE8CD,
        0x4DB1,
        [0x96, 0xE7, 0xFB, 0xCA, 0xF9, 0x84, 0xB7, 0x09],
    )
}

fn var_type() -> Guid {
    Guid::from_fields(
        0x4D21_B016,
        0xB534,
        0x45C2,
        [0xA9, 0xFB, 0x5C, 0x16, 0xE0, 0x91, 0xFD, 0x2D],
    )
}

fn home_type() -> Guid {
    Guid::from_fields(
        0x933A_C7E1,
        0x2EB4,
        0x4F13,
        [0xB8, 0x44, 0x0E, 0x14, 0xE2, 0xAE, 0xF9, 0x15],
    )
}

/// A disk with these partitions on it, sized in mebibytes.
fn image(
    sectors: u64,
    first_usable: u64,
    disk_guid: Guid,
    partitions: &[(Guid, u64, &str)],
) -> Image {
    let last = sectors - 1;
    let mut array = vec![0u8; 32 * 512];
    let mut start = 2048u64;
    for (i, (kind, mebibytes, name)) in partitions.iter().enumerate() {
        let end = start + mebibytes * 2048 - 1;
        let e = &mut array[i * 128..(i + 1) * 128];
        e[..16].copy_from_slice(kind.as_bytes());
        let unique = Guid::from_fields(sectors as u32, 0x1111, i as u16 + 1, [0x77; 8]);
        e[16..32].copy_from_slice(unique.as_bytes());
        e[32..40].copy_from_slice(&start.to_le_bytes());
        e[40..48].copy_from_slice(&end.to_le_bytes());
        for (j, u) in name.encode_utf16().enumerate() {
            e[56 + 2 * j..58 + 2 * j].copy_from_slice(&u.to_le_bytes());
        }
        start = end + 1;
    }
    let header = |my_lba: u64, alternate: u64, entries: u64| {
        let mut h = vec![0u8; 512];
        h[..8].copy_from_slice(b"EFI PART");
        h[8..12].copy_from_slice(&0x0001_0000u32.to_le_bytes());
        h[12..16].copy_from_slice(&92u32.to_le_bytes());
        h[24..32].copy_from_slice(&my_lba.to_le_bytes());
        h[32..40].copy_from_slice(&alternate.to_le_bytes());
        h[40..48].copy_from_slice(&first_usable.to_le_bytes());
        h[48..56].copy_from_slice(&(last - 33).to_le_bytes());
        h[56..72].copy_from_slice(disk_guid.as_bytes());
        h[72..80].copy_from_slice(&entries.to_le_bytes());
        h[80..84].copy_from_slice(&128u32.to_le_bytes());
        h[84..88].copy_from_slice(&128u32.to_le_bytes());
        h[88..92].copy_from_slice(&reference_crc(&array).to_le_bytes());
        let crc = reference_crc(&h[..92]);
        h[16..20].copy_from_slice(&crc.to_le_bytes());
        h
    };
    let mut protective = vec![0u8; 512];
    protective[446..462].copy_from_slice(&[
        0x00, 0x00, 0x02, 0x00, 0xEE, 0xFF, 0xFF, 0xFF, 0x01, 0x00, 0x00, 0x00, 0x00, 0x00, 0x00,
        0x00,
    ]);
    protective[458..462].copy_from_slice(&(last as u32).to_le_bytes());
    protective[510..].copy_from_slice(&[0x55, 0xAA]);

    let img = Image { blocks: Blocks::default(), sectors };
    img.write_lba(0, &protective);
    img.write_lba(1, &header(1, last, 2));
    img.write_lba(2, &array);
    img.write_lba(last - 32, &array);
    img.write_lba(last, &header(last, 1, last - 32));
    img
}

/// The stock SteamOS 3.x A/B layout plus the Windows partitions a
/// dual-booting Deck carries.
fn steamos_image() -> Image {
    image(
        64 * 1024 * 2048,
        34,
        Guid::from_fields(0xAAAA, 1, 2, [3; 8]),
        &[
            (esp_type(), 256, "esp"),
            (basic_data(), 64, "efi-A"),
            (basic_data(), 64, "efi-B"),
            (root_type(), 5 * 1024, "rootfs-A"),
            (root_type(), 5 * 1024, "rootfs-B"),
            (var_type(), 256, "var-A"),
            (var_type(), 256, "var-B"),
            (home_type(), 10 * 1024, "home"),
            (recovery(), 16, ""),
            (basic_data(), 20 * 1024, "Basic data partition"),
        ],
    )
}


fn texts(lines: &[Line]) -> Vec<&str> {
    lines.iter().map(|l| l.text.as_str()).collect()
}

fn broken() -> Image {
    let img = steamos_image();
    img.zero_lba(1, 1);
    img
}

fn page_of(next: Next) -> (String, Vec<Line>) {
    match next {
        Next::Page { title, lines } => (title, lines),
        _ => panic!("a page was expected"),
    }
}

fn told(next: Next) -> (String, Vec<Line>) {
    match next {
        Next::Tell { title, lines } => (title, lines),
        _ => panic!("a message was expected"),
    }
}

fn planned(next: Next) -> RepairPlan {
    match next {
        Next::Write { plan, .. } => plan,
        _ => panic!("a write was expected"),
    }
}

#[test]
fn a_found_disk_is_numbered_and_marked() {
    let d = steamos_image().found(true);
    assert_eq!(d.number, 1);
    assert!(d.boot);
    assert!(d.steamos);
    assert_eq!(d.capacity(), 64 << 30);
    assert_eq!(d.label(), "Disk 1    64.0 GiB  [boot]  [SteamOS]  Drive");
    let other = steamos_image().found(false);
    assert!(!other.boot);
    let detail = other.detail(80);
    assert_eq!(
        texts(&detail),
        [
            "  PciRoot(0x0)/NVMe(0x1)",
            "  134217728 blocks x 512 B",
            "  GPT: healthy, nothing to do",
        ]
    );
}

#[test]
fn only_whole_fixed_writable_disks_are_offered() {
    let m = Media { logical: false, removable: false, present: true, read_only: false };
    assert!(is_offered(m));
    assert!(!is_offered(Media { logical: true, ..m }));
    assert!(!is_offered(Media { removable: true, ..m }));
    assert!(!is_offered(Media { present: false, ..m }));
    assert!(!is_offered(Media { read_only: true, ..m }));
    let boot = BootDevice { path: Some(vec![node(1), node(2)]) };
    assert!(is_candidate(m, Some(&[node(3)]), &boot));
    assert!(!is_candidate(m, Some(&[node(1)]), &boot));
    assert!(!is_candidate(m, None, &boot));
}

#[test]
fn an_unknown_boot_device_leaves_nothing_to_write() {
    let m = Media { logical: false, removable: false, present: true, read_only: false };
    let unknown = BootDevice { path: None };
    assert!(is_offered(m));
    assert!(!unknown.covers(&[node(3)]));
    assert!(!is_candidate(m, Some(&[node(3)]), &unknown));
    assert!(!is_candidate(m, None, &unknown));
}

#[test]
fn one_disk_is_taken_without_asking() {
    let one = vec![steamos_image().found(false)];
    assert_eq!(disks::pick_from(&one), Picking::Only);
    assert_eq!(disks::pick_from(&[]), Picking::Nothing);
    let two = vec![steamos_image().found(false), steamos_image().found(false)];
    assert_eq!(disks::pick_from(&two), Picking::Ask);
    let rows = disk_items(&two, 80);
    assert_eq!(rows.len(), 2);
    assert_eq!(rows[0].label, two[0].label());
    assert_eq!(disks::no_disks()[0].style, Style::Bad);
    assert_eq!(disks::pick_intro().len(), 2);
}

#[test]
fn a_check_shows_the_table_and_offers_nothing() {
    let d = steamos_image().found(false);
    let (title, lines) = page_of(run_check(&d, 80));
    assert_eq!(title, "Check GPT (read only)");
    let text = plain(&lines);
    assert!(text.contains("Current table:"), "{text}");
    assert!(text.contains("rootfs-A"), "{text}");
    assert_eq!(
        lines.last().unwrap().text,
        "  Nothing was written. This check never modifies a disk."
    );
    let unread = Disk { analysis: Err("cannot open".to_string()), ..d };
    let (title, lines) = told(run_check(&unread, 80));
    assert_eq!((title.as_str(), lines[0].text.as_str()), ("Check GPT", "  cannot open"));
}

#[test]
fn a_repair_is_reviewed_authorised_and_leaves_a_healthy_disk() {
    let img = broken();
    let d = img.found(false);
    let (title, lines) = page_of(run_repair(&d, &CRC, &[]));
    assert_eq!(title, "Repair main GPT");
    assert!(plain(&lines).contains("Will write, in this order:"));
    assert!(matches!(run_repair(&d, &CRC, &[false]), Next::Done));
    match run_repair(&d, &CRC, &[true]) {
        Next::Gate { title, warning } => {
            assert_eq!(title, "Authorise write");
            assert_eq!(
                warning[0].text,
                "  This REWRITES the partition table on this disk."
            );
        }
        _ => panic!("the confirmation sequence was expected"),
    }
    let (title, lines) = told(run_repair(&d, &CRC, &[true, false]));
    assert_eq!(title, "Repair");
    assert_eq!(lines[0].text, "  Cancelled. Nothing was written.");
    let plan = planned(run_repair(&d, &CRC, &[true, true]));
    assert_eq!(execute(&mut img.dev(), &plan, true), Ok(true));
    let after = analyze(&mut img.dev(), &CRC).unwrap();
    assert_eq!(after.verdict, Verdict::Healthy);
    let d = img.found(false);
    assert!(matches!(run_repair(&d, &CRC, &[true]), Next::Done));
}

#[test]
fn a_wrong_mbr_is_described_as_just_that() {
    let img = steamos_image();
    img.zero_lba(0, 1);
    let d = img.found(false);
    match run_repair(&d, &CRC, &[true]) {
        Next::Gate { warning, .. } => assert_eq!(
            texts(&warning),
            [
                "  This rewrites the protective MBR on this disk.",
                "  Both GPTs are intact and are left alone.",
            ]
        ),
        _ => panic!("the confirmation sequence was expected"),
    }
    let plan = planned(run_repair(&d, &CRC, &[true, true]));
    apply(&mut img.dev(), &plan).unwrap();
    assert_eq!(analyze(&mut img.dev(), &CRC).unwrap().verdict, Verdict::Healthy);
}

#[test]
fn a_write_that_fails_says_why() {
    let img = broken();
    let d = img.found(false);
    let plan = planned(run_repair(&d, &CRC, &[true, true]));
    let mut dev = img.dev();
    dev.allowed = 0;
    let result = execute(&mut dev, &plan, false);
    assert_eq!(result, Err("write failed: device error".to_string()));
    let report = report_write("Repair", true, &result);
    assert_eq!(report.title, "Repair FAILED");
    assert_eq!(report.lines[2].text, "  Do NOT reboot into the OS; use a rescue USB.");
    assert!(!report.esp_lost);
    let report = report_write("Repair", true, &Ok(true));
    assert!(report.esp_lost);
    let report = report_write("Repair", true, &Ok(false));
    assert!(!report.esp_lost);
    assert_eq!(report.lines.len(), 7);
}

#[test]
fn closing_the_gap_takes_two_pages_and_the_sequence() {
    let img = image(
        64 * 1024 * 2048,
        2048,
        Guid::from_fields(0xAAAA, 1, 2, [3; 8]),
        &[(esp_type(), 256, "esp"), (home_type(), 1024, "home")],
    );
    let d = img.found(false);
    let (title, lines) = page_of(run_prevent(&d, &CRC, &[]));
    assert_eq!(title, "Prevent recurrence");
    assert_eq!(lines[0].text, "  FirstUsableLBA would move from 2048 to 34.");
    let (title, _) = page_of(run_prevent(&d, &CRC, &[true]));
    assert_eq!(title, "Prevent recurrence: what will be written");
    assert!(matches!(run_prevent(&d, &CRC, &[false]), Next::Done));
    assert!(matches!(run_prevent(&d, &CRC, &[true, false]), Next::Done));
    assert!(matches!(run_prevent(&d, &CRC, &[true, true]), Next::Gate { .. }));
    let plan = planned(run_prevent(&d, &CRC, &[true, true, true]));
    apply(&mut img.dev(), &plan).unwrap();
    let after = analyze(&mut img.dev(), &CRC).unwrap();
    assert_eq!(after.verdict, Verdict::Healthy);
    assert_eq!(
        gptcore::prevent::assess(&after),
        gptcore::prevent::Verdict::AlreadyMinimal { current: 34 }
    );
    let d = img.found(false);
    assert!(matches!(run_prevent(&d, &CRC, &[true]), Next::Done));
}

#[test]
fn a_snapshot_is_saved_then_put_back_byte_for_byte() {
    let img = steamos_image();
    let d = img.found(true);
    let analysis = d.analysis.as_ref().unwrap();
    let taken =
        take_snapshot(&mut img.dev(), analysis, Timestamp::default(), Vec::new(), &CRC);
    let (_, bytes) = taken.as_ref().unwrap();
    let esp = vec![Volume::boot("esp path".to_string(), Some(1 << 20), false)];
    let mut s = BackupSoFar {
        esp_lost: true,
        warned: None,
        disk: None,
        taken: None,
        chosen: None,
        reviewed: None,
    };
    assert!(matches!(run_backup(&s, &esp, 80), BackupNext::WarnEsp));
    s.warned = Some(false);
    assert!(matches!(run_backup(&s, &esp, 80), BackupNext::Done));
    s.warned = Some(true);
    assert!(matches!(run_backup(&s, &esp, 80), BackupNext::Pick));
    s.disk = Some(None);
    assert!(matches!(run_backup(&s, &esp, 80), BackupNext::Done));
    s.disk = Some(Some(&d));
    assert!(matches!(run_backup(&s, &esp, 80), BackupNext::Take));
    let unread: Result<(backup::Archive, Vec<u8>), String> = Err("no".to_string());
    s.taken = Some(&unread);
    assert!(matches!(run_backup(&s, &esp, 80), BackupNext::Tell { .. }));
    s.taken = Some(&taken);
    assert!(matches!(run_backup(&s, &esp, 80), BackupNext::Choose));
    s.chosen = Some(false);
    assert!(matches!(run_backup(&s, &esp, 80), BackupNext::Done));
    s.chosen = Some(true);
    match run_backup(&s, &esp, 80) {
        BackupNext::Review { lines, .. } => {
            let text = plain(&lines);
            assert!(
                text.contains(&format!(
                    "  {} bytes will be written to \\BOOTFIXR\\ on:",
                    bytes.len()
                )),
                "{text}"
            );
            assert!(text.contains("  NOTE: the ESP is on this same disk, so this is a"));
        }
        _ => panic!("the review was expected"),
    }
    s.reviewed = Some(false);
    assert!(matches!(run_backup(&s, &esp, 80), BackupNext::Done));
    s.reviewed = Some(true);
    assert!(matches!(run_backup(&s, &esp, 80), BackupNext::Save));

    // Break it thoroughly, and put it back from the file.
    let before = (img.read_lba(0, 34), img.read_lba(img.sectors - 33, 33));
    img.zero_lba(0, 34);
    img.zero_lba(img.sectors - 33, 33);
    let looked = [
        Looked {
            volume: "the ESP".to_string(),
            files: Ok(vec![
                File { name: "gpt.001".to_string(), data: Ok(bytes.clone()) },
                File { name: "gpt.002".to_string(), data: Ok(vec![0; 10]) },
                File { name: "gpt.003".to_string(), data: Err("read failed".to_string()) },
            ]),
        },
        Looked { volume: "STICK".to_string(), files: Err("cannot open".to_string()) },
    ];
    let found = load_saved(&looked, &CRC);
    assert_eq!(found.usable.len(), 1);
    assert_eq!(found.rejected.len(), 3);
    assert_eq!(found.rejected[1].text, "  gpt.003 on the ESP - read failed");
    assert_eq!(found.rejected[2].text, "  STICK - cannot open");
    let disks = vec![img.found(false)];
    let usable = attribute(found.usable, &disks);
    assert_eq!(usable[0].best.as_ref().unwrap().0, 0);
    let rows = saved_items(&usable, &disks);
    assert!(rows[0].label.starts_with("gpt.001  0000-00-00 00:00:00"), "{}", rows[0].label);
    assert_eq!(rows[0].detail[1].text, "  found on the ESP");
    assert_eq!(rows[0].detail[3].text, "  written by an older build");
    assert_eq!(look(&usable[0], &disks)[0].text, "  gpt.001");
    assert_eq!(
        saved_intro(1)[0].text,
        "  1 snapshot(s) in \\BOOTFIXR\\ on the volumes here."
    );
    let d = &disks[0];
    let archive = &usable[0].archive;
    let (title, lines) = page_of(run_restore(archive, d, &[]));
    assert_eq!(title, "Restore GPT");
    assert!(plain(&lines).contains("NOTE: nothing in this snapshot identifies it as this"));
    assert!(matches!(run_restore(archive, d, &[false]), Next::Done));
    assert!(matches!(run_restore(archive, d, &[true]), Next::Gate { .. }));
    let plan = planned(run_restore(archive, d, &[true, true]));
    apply(&mut img.dev(), &plan).unwrap();
    assert_eq!(img.read_lba(0, 34), before.0);
    assert_eq!(img.read_lba(img.sectors - 33, 33), before.1);
    assert_eq!(analyze(&mut img.dev(), &CRC).unwrap().verdict, Verdict::Healthy);
}

#[test]
fn a_snapshot_of_another_disk_is_refused() {
    let img = steamos_image();
    let d = img.found(false);
    let (archive, _) = take_snapshot(
        &mut img.dev(),
        d.analysis.as_ref().unwrap(),
        Timestamp::default(),
        Vec::new(),
        &CRC,
    )
    .unwrap();
    let small = image(
        1024 * 2048,
        34,
        Guid::from_fields(0xCCCC, 1, 2, [3; 8]),
        &[(esp_type(), 256, "esp")],
    );
    let (title, lines) = told(run_restore(&archive, &small.found(false), &[true, true]));
    assert_eq!(title, "Restore GPT refused");
    assert!(lines[0].text.starts_with("  this snapshot does not fit this disk: "));
}

#[test]
fn what_was_saved_is_reported() {
    let esp = vec![Volume::boot("esp path".to_string(), None, false)];
    let line = |t: &str| Line { text: t.to_string(), style: Style::Key };
    let (title, lines) = told(report_backup(&Err("full".to_string()), &esp, false));
    assert_eq!((title.as_str(), lines[0].text.as_str()), ("Back up GPT FAILED", "  full"));
    let none = Ok(Written { ok: vec![], failed: vec![line("    STICK - full")] });
    let (title, lines) = told(report_backup(&none, &esp, false));
    assert_eq!(title, "Back up GPT FAILED");
    assert_eq!(texts(&lines), ["  Nothing was written:", "    STICK - full"]);
    let some = Ok(Written { ok: vec![line("    \\BOOTFIXR\\gpt.001")], failed: vec![] });
    let (title, lines) = told(report_backup(&some, &esp, true));
    assert_eq!(title, "Back up GPT");
    assert_eq!(lines.len(), 5);
    let (_, lines) = told(report_backup(&some, &esp, false));
    assert_eq!(lines.len(), 9);
}

#[test]
fn restoring_begins_with_what_can_be_used() {
    let line = |t: &str| Line { text: t.to_string(), style: Style::Bad };
    assert!(matches!(saved::restore_opening(true, None, None), Opening::WarnEsp));
    assert!(matches!(saved::restore_opening(true, Some(false), None), Opening::Done));
    assert!(matches!(saved::restore_opening(true, Some(true), None), Opening::Load));
    assert!(matches!(saved::restore_opening(false, None, None), Opening::Load));
    assert!(matches!(saved::restore_opening(false, None, Some((1, vec![]))), Opening::Offer));
    match saved::restore_opening(false, None, Some((0, vec![line("  x")]))) {
        Opening::Nothing { lines } => assert_eq!(
            texts(&lines),
            [
                "  No usable snapshots in \\BOOTFIXR\\, on the ESP or on",
                "  any removable media attached now.",
                "",
                "  Rejected:",
                "  x",
            ]
        ),
        _ => panic!("there was nothing to offer"),
    }
    match saved::restore_opening(false, None, Some((2, vec![line("  x")]))) {
        Opening::Note { lines } => assert_eq!(lines.len(), 4),
        _ => panic!("something was rejected"),
    }
}

#[test]
fn the_smaller_screens_say_what_they_are_for() {
    let (title, lines) = page_of(warn_esp_may_be_gone());
    assert_eq!(title, "The ESP may no longer be reachable");
    assert_eq!(lines.len(), 6);
    let (title, lines) = page_of(run_reboot());
    assert_eq!((title.as_str(), lines.len()), ("Reboot", 4));
    assert_eq!(gptcore::flows::fallback_note().len(), 2);
}

#[test]
fn the_rescue_tool_goes_the_same_way() {
    let img = broken();
    let a = analyze(&mut img.dev(), &CRC).unwrap();
    let label = rescue::disk_label(0, "NVMe(0x1)");
    assert_eq!(label, "Disk 1: NVMe(0x1)");
    let (title, lines) = page_of(rescue::run_repair(&label, Some(&a), &CRC, &[]));
    assert_eq!(title, "Repair primary GPT");
    assert_eq!(lines[0].text, label);
    assert!(matches!(rescue::run_repair(&label, Some(&a), &CRC, &[false]), Next::Done));
    assert!(matches!(rescue::run_repair(&label, Some(&a), &CRC, &[true]), Next::Gate { .. }));
    let plan = planned(rescue::run_repair(&label, Some(&a), &CRC, &[true, true]));
    assert!(plan.steps.iter().any(|s| matches!(s, Step::Write { lba: 1, .. })));
    let (_, lines) = told(rescue::run_repair(&label, None, &CRC, &[]));
    assert_eq!(texts(&lines), ["Disk 1: NVMe(0x1)", "  could not be read"]);
    assert!(matches!(rescue::run_prevent(&label, None, &CRC, &[]), Next::Done));
    let healthy = analyze(&mut steamos_image().dev(), &CRC).unwrap();
    let (_, lines) = page_of(rescue::run_prevent(&label, Some(&healthy), &CRC, &[]));
    assert_eq!(lines[0].text, label);
    assert!(matches!(rescue::run_prevent(&label, Some(&healthy), &CRC, &[true]), Next::Done));
    let (title, lines) = told(rescue::report_outcome("Repair", true, &Ok(())));
    assert_eq!((title.as_str(), lines.len()), ("Repair", 3));
    let (title, lines) =
        told(rescue::report_outcome("Prevent", false, &Err("device error".to_string())));
    assert_eq!(title, "Prevent FAILED");
    assert_eq!(lines[2].text, "  Check the disk with a rescue USB before rebooting.");
    assert_eq!(rescue::no_disks_message(true).len(), 1);
    assert_eq!(rescue::no_disks_message(false).len(), 4);
    assert_eq!(rescue::intro("1.1.0", Some("USB")).len(), 3);
    assert_eq!(rescue::intro("1.1.0", None)[0].text, "  version 1.1.0");
}

#[test]
fn an_interrupted_repair_can_be_finished() {
    for writes in 0..4 {
        let img = broken();
        img.zero_lba(0, 1);
        let d = img.found(false);
        let plan = planned(run_repair(&d, &CRC, &[true, true]));
        let mut dev = img.dev();
        dev.allowed = writes;
        let stopped = apply(&mut dev, &plan).is_err();
        assert_eq!(stopped, writes < 3, "after {writes} writes");
        let now = analyze(&mut img.dev(), &CRC).unwrap();
        match now.verdict {
            Verdict::MainRepairable => {
                let plan = gptcore::plan(&now, &CRC).unwrap();
                apply(&mut img.dev(), &plan).unwrap();
            }
            verdict => assert_eq!(verdict, Verdict::Healthy, "after {writes} writes"),
        }
        assert_eq!(analyze(&mut img.dev(), &CRC).unwrap().verdict, Verdict::Healthy);
    }
}

#[test]
fn restoring_goes_from_looking_to_writing() {
    let img = steamos_image();
    let d = img.found(false);
    let (_, bytes) = take_snapshot(
        &mut img.dev(),
        d.analysis.as_ref().unwrap(),
        Timestamp::default(),
        Vec::new(),
        &CRC,
    )
    .unwrap();
    let looked = [Looked {
        volume: "the ESP".to_string(),
        files: Ok(vec![File { name: "gpt.001".to_string(), data: Ok(bytes) }]),
    }];
    let found = load_saved(&looked, &CRC);
    let disks = vec![d];
    let usable = attribute(found.usable, &disks);
    let note = [Line { text: "  x".to_string(), style: Style::Bad }];
    let mut s = RestoreSoFar {
        esp_lost: true,
        warned: None,
        found: None,
        noted: false,
        chosen: None,
        disk: None,
        answers: &[],
    };
    assert!(matches!(run_restore_from(&s), RestoreNext::WarnEsp));
    s.warned = Some(false);
    assert!(matches!(run_restore_from(&s), RestoreNext::Go(Next::Done)));
    s.warned = Some(true);
    assert!(matches!(run_restore_from(&s), RestoreNext::Load));
    s.found = Some((&[], &note));
    assert!(matches!(run_restore_from(&s), RestoreNext::Go(Next::Tell { .. })));
    s.found = Some((&usable, &note));
    assert!(matches!(run_restore_from(&s), RestoreNext::Note { .. }));
    s.noted = true;
    assert!(matches!(run_restore_from(&s), RestoreNext::Choose));
    s.chosen = Some(None);
    assert!(matches!(run_restore_from(&s), RestoreNext::Go(Next::Done)));
    s.chosen = Some(Some(0));
    assert!(matches!(run_restore_from(&s), RestoreNext::Pick));
    s.disk = Some(None);
    assert!(matches!(run_restore_from(&s), RestoreNext::Go(Next::Done)));
    s.disk = Some(Some(&disks[0]));
    assert!(matches!(run_restore_from(&s), RestoreNext::Go(Next::Page { .. })));
    s.answers = &[true];
    assert!(matches!(run_restore_from(&s), RestoreNext::Go(Next::Gate { .. })));
    s.answers = &[true, true];
    assert!(matches!(run_restore_from(&s), RestoreNext::Go(Next::Write { .. })));
}
