use gptcore::backup::{
    self, decode, encode, restore_plan, DecodeError, Health, Mismatch, Role, Timestamp,
};
use gptcore::diag;
use gptcore::disk::{BlockDevice, IoError};
use gptcore::header::{Defect, GptHeader};
use gptcore::layout::{self, Confidence};
use gptcore::mbr::{self, MbrStatus};
use gptcore::repair::{analyze, apply, plan, Implausible, Step, Verdict};
use gptcore::style::plain;
use gptcore::{Crc32, Guid, SoftCrc32};
use std::cell::RefCell;
use std::collections::BTreeMap;
use std::rc::Rc;

const CRC: SoftCrc32 = SoftCrc32;
const BLOCK_SIZE: u32 = 512;

/// The blocks of a disk that are not all zero.
type Blocks = Rc<RefCell<BTreeMap<u64, Vec<u8>>>>;

#[derive(Clone, Copy, PartialEq, Eq, Debug)]
enum Op {
    Write { lba: u64, blocks: u64 },
    Flush,
}

/// A `BlockDevice` over an image, recording writes so tests can assert on
/// ordering.
struct Disk {
    blocks: Blocks,
    sectors: u64,
    journal: Vec<Op>,
}

impl Disk {
    fn writes(&self) -> Vec<Op> {
        self.journal.clone()
    }
}

impl BlockDevice for Disk {
    fn block_size(&self) -> u32 {
        BLOCK_SIZE
    }

    fn last_block(&self) -> u64 {
        self.sectors - 1
    }

    fn read_blocks(&mut self, lba: u64, buf: &mut [u8]) -> Result<(), IoError> {
        if buf.len() % BLOCK_SIZE as usize != 0 {
            return Err(IoError::Unaligned);
        }
        for (i, b) in buf.chunks_mut(BLOCK_SIZE as usize).enumerate() {
            match self.blocks.borrow().get(&(lba + i as u64)) {
                Some(data) => b.copy_from_slice(data),
                None => b.fill(0),
            }
        }
        Ok(())
    }

    fn write_blocks(&mut self, lba: u64, buf: &[u8]) -> Result<(), IoError> {
        if buf.len() % BLOCK_SIZE as usize != 0 {
            return Err(IoError::Unaligned);
        }
        for (i, b) in buf.chunks(BLOCK_SIZE as usize).enumerate() {
            self.blocks.borrow_mut().insert(lba + i as u64, b.to_vec());
        }
        self.journal.push(Op::Write { lba, blocks: buf.len() as u64 / BLOCK_SIZE as u64 });
        Ok(())
    }

    fn flush(&mut self) -> Result<(), IoError> {
        self.journal.push(Op::Flush);
        Ok(())
    }
}

/// An image that several disks can be opened over, one after the other.
struct Image {
    blocks: Blocks,
    sectors: u64,
}

/// One row per partition: number, type, extent and name.
fn listing(array: &[u8]) -> Vec<String> {
    let mut rows = Vec::new();
    for (i, e) in array.chunks(128).enumerate() {
        if e[..16].iter().any(|b| *b != 0) {
            rows.push(format!("{} {:02x?}", i + 1, e));
        }
    }
    rows
}

impl Image {
    fn disk(&self) -> Disk {
        self.sized(self.sectors)
    }

    /// A device of this many sectors over the same image.
    fn sized(&self, sectors: u64) -> Disk {
        Disk { blocks: self.blocks.clone(), sectors, journal: Vec::new() }
    }

    fn read_lba(&self, lba: u64, count: u64) -> Vec<u8> {
        let mut buf = vec![0u8; (count * BLOCK_SIZE as u64) as usize];
        self.disk().read_blocks(lba, &mut buf).unwrap();
        buf
    }

    fn write_lba(&self, lba: u64, data: &[u8]) {
        self.disk().write_blocks(lba, data).unwrap();
    }

    fn zero_lba(&self, lba: u64, count: u64) {
        self.write_lba(lba, &vec![0u8; (count * BLOCK_SIZE as u64) as usize]);
    }

    fn last_block(&self) -> u64 {
        self.sectors - 1
    }

    /// What is wrong with the image, judged from the bytes alone.
    fn verify(&self) -> String {
        let mut wrong = Vec::new();
        let last = self.last_block();
        let number = |b: &[u8], at: usize| u64::from_le_bytes(b[at..at + 8].try_into().unwrap());
        let word = |b: &[u8], at: usize| u32::from_le_bytes(b[at..at + 4].try_into().unwrap());
        for (name, lba, other, entries) in
            [("main", 1, last, 2), ("secondary", last, 1, last - 32)]
        {
            let h = self.read_lba(lba, 1);
            let mut zeroed = h[..92].to_vec();
            zeroed[16..20].fill(0);
            let array = self.read_lba(entries, 32);
            if &h[..8] != b"EFI PART" {
                wrong.push(format!("{name}: no signature"));
            }
            if word(&h, 16) != reference_crc(&zeroed) {
                wrong.push(format!("{name}: header checksum"));
            }
            if number(&h, 24) != lba || number(&h, 32) != other || number(&h, 72) != entries {
                wrong.push(format!("{name}: pointers"));
            }
            if word(&h, 88) != reference_crc(&array) {
                wrong.push(format!("{name}: entry array checksum"));
            }
        }
        let mbr = self.read_lba(0, 1);
        if mbr[510..] != [0x55, 0xAA]
            || mbr[450] != 0xEE
            || word(&mbr, 454) != 1
            || word(&mbr, 458) as u64 != last.min(u32::MAX as u64)
        {
            wrong.push(String::from("protective MBR"));
        }
        wrong.join("\n")
    }

    fn is_clean(&self) -> bool {
        self.verify().is_empty()
    }

    /// The partition listing of the main table, used to prove a repair
    /// restored the table rather than merely producing something
    /// self-consistent.
    fn print(&self) -> String {
        listing(&self.read_lba(2, 32)).join("\n")
    }
}

/// CRC-32 one bit at a time.
fn reference_crc(data: &[u8]) -> u32 {
    let mut crc = !0u32;
    for b in data {
        crc ^= *b as u32;
        for _ in 0..8 {
            crc = if crc & 1 != 0 { (crc >> 1) ^ 0xEDB8_8320 } else { crc >> 1 };
        }
    }
    !crc
}

fn esp_type() -> Guid {
    Guid::from_fields(0xC12A_7328, 0xF81F, 0x11D2, [0xBA, 0x4B, 0, 0xA0, 0xC9, 0x3E, 0xC9, 0x3B])
}

fn basic_data() -> Guid {
    Guid::from_fields(
        0xEBD0_A0A2,
        0xB9E5,
        0x4433,
        [0x87, 0xC0, 0x68, 0xB6, 0xB7, 0x26, 0x99, 0xC7],
    )
}

fn reserved() -> Guid {
    Guid::from_fields(
        0xE3C9_E316,
        0x0B5C,
        0x4DB8,
        [0x81, 0x7D, 0xF9, 0x2D, 0xF0, 0x02, 0x15, 0xAE],
    )
}

fn recovery() -> Guid {
    Guid::from_fields(
        0xDE94_BBA4,
        0x06D1,
        0x4D40,
        [0xA1, 0x6A, 0xBF, 0xD5, 0x01, 0x79, 0xD6, 0xAC],
    )
}

fn root_type() -> Guid {
    Guid::from_fields(
        0x4F68_BCE3,
        0xE8CD,
        0x4DB1,
        [0x96, 0xE7, 0xFB, 0xCA, 0xF9, 0x84, 0xB7, 0x09],
    )
}

fn var_type() -> Guid {
    Guid::from_fields(
        0x4D21_B016,
        0xB534,
        0x45C2,
        [0xA9, 0xFB, 0x5C, 0x16, 0xE0, 0x91, 0xFD, 0x2D],
    )
}

fn home_type() -> Guid {
    Guid::from_fields(
        0x933A_C7E1,
        0x2EB4,
        0x4F13,
        [0xB8, 0x44, 0x0E, 0x14, 0xE2, 0xAE, 0xF9, 0x15],
    )
}

/// A disk with these partitions on it, sized in mebibytes.
fn image(
    sectors: u64,
    first_usable: u64,
    disk_guid: Guid,
    partitions: &[(Guid, u64, &str)],
) -> Image {
    let last = sectors - 1;
    let mut array = vec![0u8; 32 * 512];
    let mut start = 2048u64;
    for (i, (kind, mebibytes, name)) in partitions.iter().enumerate() {
        let end = start + mebibytes * 2048 - 1;
        let e = &mut array[i * 128..(i + 1) * 128];
        e[..16].copy_from_slice(kind.as_bytes());
        let unique = Guid::from_fields(sectors as u32, 0x1111, i as u16 + 1, [0x77; 8]);
        e[16..32].copy_from_slice(unique.as_bytes());
        e[32..40].copy_from_slice(&start.to_le_bytes());
        e[40..48].copy_from_slice(&end.to_le_bytes());
        for (j, u) in name.encode_utf16().enumerate() {
            e[56 + 2 * j..58 + 2 * j].copy_from_slice(&u.to_le_bytes());
        }
        start = end + 1;
    }
    let header = |my_lba: u64, alternate: u64, entries: u64| {
        let mut h = vec![0u8; 512];
        h[..8].copy_from_slice(b"EFI PART");
        h[8..12].copy_from_slice(&0x0001_0000u32.to_le_bytes());
        h[12..16].copy_from_slice(&92u32.to_le_bytes());
        h[24..32].copy_from_slice(&my_lba.to_le_bytes());
        h[32..40].copy_from_slice(&alternate.to_le_bytes());
        h[40..48].copy_from_slice(&first_usable.to_le_bytes());
        h[48..56].copy_from_slice(&(last - 33).to_le_bytes());
        h[56..72].copy_from_slice(disk_guid.as_bytes());
        h[72..80].copy_from_slice(&entries.to_le_bytes());
        h[80..84].copy_from_slice(&128u32.to_le_bytes());
        h[84..88].copy_from_slice(&128u32.to_le_bytes());
        h[88..92].copy_from_slice(&reference_crc(&array).to_le_bytes());
        let crc = reference_crc(&h[..92]);
        h[16..20].copy_from_slice(&crc.to_le_bytes());
        h
    };
    let mut protective = vec![0u8; 512];
    protective[446..462].copy_from_slice(&[
        0x00, 0x00, 0x02, 0x00, 0xEE, 0xFF, 0xFF, 0xFF, 0x01, 0x00, 0x00, 0x00, 0x00, 0x00, 0x00,
        0x00,
    ]);
    protective[458..462].copy_from_slice(&(last as u32).to_le_bytes());
    protective[510..].copy_from_slice(&[0x55, 0xAA]);

    let img = Image { blocks: Blocks::default(), sectors };
    img.write_lba(0, &protective);
    img.write_lba(1, &header(1, last, 2));
    img.write_lba(2, &array);
    img.write_lba(last - 32, &array);
    img.write_lba(last, &header(last, 1, last - 32));
    img
}

/// The stock SteamOS 3.x A/B layout plus the Windows partitions a
/// dual-booting Deck carries.
fn steamos_image() -> Image {
    image(
        64 * 1024 * 2048,
        34,
        Guid::from_fields(0xAAAA, 1, 2, [3; 8]),
        &[
            (esp_type(), 256, "esp"),
            (basic_data(), 64, "efi-A"),
            (basic_data(), 64, "efi-B"),
            (root_type(), 5 * 1024, "rootfs-A"),
            (root_type(), 5 * 1024, "rootfs-B"),
            (var_type(), 256, "var-A"),
            (var_type(), 256, "var-B"),
            (home_type(), 10 * 1024, "home"),
            (recovery(), 16, ""),
            (basic_data(), 20 * 1024, "Basic data partition"),
        ],
    )
}

/// A disk that is emphatically not a SteamOS install.
fn foreign_image() -> Image {
    image(
        64 * 1024 * 2048,
        34,
        Guid::from_fields(0xBBBB, 1, 2, [3; 8]),
        &[(basic_data(), 8 * 1024, "some other disk")],
    )
}

/// A dual-booting Deck: 1 TB NVMe, 512-byte sectors, a table written by
/// util-linux fdisk, so the entry array ends at LBA 33 but the first usable
/// block is 2048 rather than 34.
fn deck_image() -> Image {
    image(
        1_953_525_168,
        2048,
        Guid::from_fields(0xDECC, 1, 2, [3; 8]),
        &[
            (esp_type(), 256, "esp"),
            (basic_data(), 64, "efi-A"),
            (basic_data(), 64, "efi-B"),
            (root_type(), 5 * 1024, "rootfs-A"),
            (root_type(), 5 * 1024, "rootfs-B"),
            (var_type(), 256, "var-A"),
            (var_type(), 256, "var-B"),
            (home_type(), 400 * 1024, "home"),
            (reserved(), 16, "Microsoft reserved partition"),
            (basic_data(), 500 * 1024, "Basic data partition"),
            (recovery(), 700, ""),
        ],
    )
}

/// The same disk with its main header pointing the entry array at LBA 2016
/// and resealed to match.
fn deck_corrupt_image() -> Image {
    let img = deck_image();
    let mut h = img.read_lba(1, 1);
    h[72..80].copy_from_slice(&2016u64.to_le_bytes());
    h[16..20].fill(0);
    let crc = reference_crc(&h[..92]);
    h[16..20].copy_from_slice(&crc.to_le_bytes());
    img.write_lba(1, &h);
    img
}

/// What an independent partitioner leaves at the head of that disk when it
/// repairs it.
fn deck_expected_fixed_head() -> Vec<u8> {
    deck_image().read_lba(0, 34)
}

/// Rewrite the backup table through a mutator, keeping both CRCs correct
/// so the backup still validates and reaches the plausibility checks.
fn patch_backup_entries(img: &Image, mutate: impl FnOnce(&mut [u8])) {
    let last = img.last_block();
    let raw = img.read_lba(last, 1);
    let header = GptHeader::parse(&raw).unwrap();
    let blocks = header.entry_array_blocks(BLOCK_SIZE).unwrap();
    let len = header.entry_array_len().unwrap();

    let mut entries = img.read_lba(header.partition_entry_lba, blocks);
    mutate(&mut entries);

    let mut fixed = header;
    fixed.partition_entry_array_crc32 = CRC.crc32(&entries[..len]);
    img.write_lba(header.partition_entry_lba, &entries);
    img.write_lba(last, &fixed.to_block(BLOCK_SIZE, &CRC));
}

fn set_entry_u64(entries: &mut [u8], index: usize, field_off: usize, value: u64) {
    let off = index * 128 + field_off;
    entries[off..off + 8].copy_from_slice(&value.to_le_bytes());
}

const STARTING_LBA: usize = 32;
const ENDING_LBA: usize = 40;

/// Corrupt the primary, repair it, and assert the bytes are as they should be and the
/// table came back identical.
fn assert_repairs(img: &Image, corrupt: impl FnOnce(&Image)) {
    let before = img.print();
    assert!(img.is_clean(), "fixture should start clean");

    corrupt(img);
    assert!(!img.is_clean(), "corruption did not actually break the primary");

    let mut dev = img.disk();
    let analysis = analyze(&mut dev, &CRC).unwrap();
    assert_eq!(analysis.verdict, Verdict::MainRepairable, "{:?}", analysis.verdict);

    let p = plan(&analysis, &CRC).expect("a repairable verdict must yield a plan");
    // The fields we promised to rewrite rather than copy.
    assert_eq!(p.header.my_lba, 1);
    assert_eq!(p.header.alternate_lba, dev.last_block());
    assert_eq!(p.header.partition_entry_lba, 2);

    apply(&mut dev, &p).unwrap();
    drop(dev);

    assert!(img.is_clean(), "still unhappy after repair:\n{}", img.verify());
    assert_eq!(before, img.print(), "table differs after repair");
}

#[test]
fn healthy_image_needs_no_repair_and_is_not_written_to() {
    let img = steamos_image();
    let mut dev = img.disk();
    let analysis = analyze(&mut dev, &CRC).unwrap();
    assert_eq!(analysis.verdict, Verdict::Healthy);
    assert!(plan(&analysis, &CRC).is_none());
    assert!(dev.writes().is_empty(), "analysis must never write");
}

#[test]
fn zeroed_primary_header_is_repaired() {
    let img = steamos_image();
    assert_repairs(&img, |i| i.zero_lba(1, 1));
}

#[test]
fn zeroed_primary_header_and_entry_array_is_repaired() {
    let img = steamos_image();
    assert_repairs(&img, |i| i.zero_lba(1, 33));
}

#[test]
fn corrupted_primary_entry_array_is_repaired() {
    let img = steamos_image();
    assert_repairs(&img, |i| i.write_lba(2, &[0x5A; 512]));
}

#[test]
fn bad_signature_is_repaired() {
    let img = steamos_image();
    assert_repairs(&img, |i| {
        let mut b = i.read_lba(1, 1);
        b[..8].copy_from_slice(b"NOTAPART");
        i.write_lba(1, &b);
    });
}

#[test]
fn flipped_header_crc_is_repaired() {
    let img = steamos_image();
    assert_repairs(&img, |i| {
        let mut b = i.read_lba(1, 1);
        b[16] ^= 0xFF;
        i.write_lba(1, &b);
    });
}

#[test]
fn primary_header_claiming_the_wrong_lba_is_repaired() {
    let img = steamos_image();
    assert_repairs(&img, |i| {
        // MyLBA says 5. Every CRC still checks out, so only the
        // read-from-LBA comparison catches this.
        let mut header = GptHeader::parse(&i.read_lba(1, 1)).unwrap();
        header.my_lba = 5;
        i.write_lba(1, &header.to_block(BLOCK_SIZE, &CRC));
    });
}

#[test]
fn repair_is_idempotent() {
    let img = steamos_image();
    assert_repairs(&img, |i| i.zero_lba(1, 1));

    let mut dev = img.disk();
    let second = analyze(&mut dev, &CRC).unwrap();
    assert_eq!(second.verdict, Verdict::Healthy);
    assert!(plan(&second, &CRC).is_none());
}

#[test]
fn entry_array_is_written_and_flushed_before_the_header() {
    let img = steamos_image();
    img.zero_lba(1, 1);

    let mut dev = img.disk();
    let analysis = analyze(&mut dev, &CRC).unwrap();
    let p = plan(&analysis, &CRC).unwrap();

    // Assert on the plan itself: the barrier is part of the data
    // structure, not an implementation detail of the executor.
    let kinds: Vec<String> = p
        .steps
        .iter()
        .map(|s| match s {
            Step::Write { lba, .. } => format!("write@{lba}"),
            Step::Flush { .. } => "flush".to_string(),
        })
        .collect();
    assert_eq!(kinds, vec!["write@2", "flush", "write@1", "flush"], "{kinds:?}");

    // And assert the executor honours it.
    dev.journal.clear();
    apply(&mut dev, &p).unwrap();
    let ops = dev.writes();
    let header_at = ops.iter().position(|o| matches!(o, Op::Write { lba: 1, .. })).unwrap();
    let entries_at = ops.iter().position(|o| matches!(o, Op::Write { lba: 2, .. })).unwrap();
    let barrier_at = ops.iter().position(|o| matches!(o, Op::Flush)).unwrap();
    assert!(entries_at < barrier_at && barrier_at < header_at, "{ops:?}");
}

#[test]
fn both_tables_destroyed_is_unrecoverable() {
    let img = steamos_image();
    img.zero_lba(1, 33);
    img.zero_lba(img.last_block(), 1);

    let mut dev = img.disk();
    let analysis = analyze(&mut dev, &CRC).unwrap();
    assert_eq!(analysis.verdict, Verdict::Unrecoverable);
    assert!(plan(&analysis, &CRC).is_none());
    assert!(dev.writes().is_empty());
}

#[test]
fn damaged_backup_alone_is_reported_but_not_repaired() {
    let img = steamos_image();
    img.zero_lba(img.last_block(), 1);

    let mut dev = img.disk();
    let analysis = analyze(&mut dev, &CRC).unwrap();
    assert_eq!(analysis.verdict, Verdict::SecondaryDegraded);
    assert!(plan(&analysis, &CRC).is_none());
}

#[test]
fn a_disk_that_is_not_steamos_is_refused() {
    let img = foreign_image();
    img.zero_lba(1, 1);

    let mut dev = img.disk();
    let analysis = analyze(&mut dev, &CRC).unwrap();
    assert_eq!(analysis.verdict, Verdict::RefusedImplausibleSecondary);
    assert!(matches!(analysis.rejection, Some(Implausible::Unrecognized(_))));
    assert!(plan(&analysis, &CRC).is_none());
    assert!(dev.writes().is_empty());
}

#[test]
fn backup_with_overlapping_partitions_is_refused() {
    let img = steamos_image();
    // Drag rootfs-A back over efi-B. CRCs are fixed up, so the backup
    // header itself still validates: only the structural check sees this.
    patch_backup_entries(&img, |e| set_entry_u64(e, 3, STARTING_LBA, 657_408));
    img.zero_lba(1, 1);

    let mut dev = img.disk();
    let analysis = analyze(&mut dev, &CRC).unwrap();
    assert_eq!(analysis.verdict, Verdict::RefusedImplausibleSecondary);
    assert!(
        matches!(analysis.rejection, Some(Implausible::Structure(_))),
        "{:?}",
        analysis.rejection
    );
    assert!(dev.writes().is_empty());
}

#[test]
fn backup_describing_a_partition_past_the_end_of_the_disk_is_refused() {
    let img = steamos_image();
    let last = img.last_block();
    patch_backup_entries(&img, |e| set_entry_u64(e, 9, ENDING_LBA, last + 4096));
    img.zero_lba(1, 1);

    let mut dev = img.disk();
    let analysis = analyze(&mut dev, &CRC).unwrap();
    assert_eq!(analysis.verdict, Verdict::RefusedImplausibleSecondary);
    assert!(
        matches!(analysis.rejection, Some(Implausible::Structure(_))),
        "{:?}",
        analysis.rejection
    );
    assert!(dev.writes().is_empty());
}

#[test]
fn hybrid_mbr_is_refused_even_though_the_primary_is_broken() {
    let img = steamos_image();
    let mut mbr = img.read_lba(0, 1);
    // A real NTFS record beside the protective one.
    let rec = 446 + 16;
    mbr[rec] = 0x80;
    mbr[rec + 4] = 0x07;
    mbr[rec + 8..rec + 12].copy_from_slice(&2048u32.to_le_bytes());
    mbr[rec + 12..rec + 16].copy_from_slice(&524_288u32.to_le_bytes());
    img.write_lba(0, &mbr);
    img.zero_lba(1, 1);

    let mut dev = img.disk();
    let analysis = analyze(&mut dev, &CRC).unwrap();
    assert_eq!(analysis.verdict, Verdict::RefusedHybridMbr);
    assert!(plan(&analysis, &CRC).is_none());
    assert!(dev.writes().is_empty());
}

#[test]
fn a_wrong_protective_mbr_is_repaired_on_its_own() {
    let img = steamos_image();
    let mut mbr = img.read_lba(0, 1);
    mbr[446 + 12..446 + 16].copy_from_slice(&12_345u32.to_le_bytes());
    img.write_lba(0, &mbr);

    let mut dev = img.disk();
    let analysis = analyze(&mut dev, &CRC).unwrap();
    assert_eq!(analysis.verdict, Verdict::MbrOnly);

    let p = plan(&analysis, &CRC).unwrap();
    assert_eq!(p.writes().iter().map(|(lba, _)| *lba).collect::<Vec<_>>(), vec![0]);
    apply(&mut dev, &p).unwrap();
    drop(dev);

    assert!(img.is_clean(), "{}", img.verify());
    let mut dev = img.disk();
    assert_eq!(analyze(&mut dev, &CRC).unwrap().verdict, Verdict::Healthy);
}

#[test]
fn recovered_table_reports_the_expected_steamos_partitions() {
    let img = steamos_image();
    img.zero_lba(1, 1);

    let mut dev = img.disk();
    let analysis = analyze(&mut dev, &CRC).unwrap();
    let rec = analysis.recognition.as_ref().expect("a repairable disk is assessed");
    assert!(rec.missing.is_empty(), "missing {:?}", rec.missing);
    assert!(rec.missing_critical.is_empty());

    let names: Vec<String> =
        analysis.source().unwrap().used_entries().iter().map(|(_, e)| e.name_string()).collect();
    assert!(names.contains(&"esp".to_string()), "{names:?}");
    assert!(names.contains(&"rootfs-A".to_string()), "{names:?}");
    assert!(names.contains(&"home".to_string()), "{names:?}");
}

/// The real disk: 1 TB NVMe, 512-byte sectors, GPT written by util-linux
/// fdisk, so the entry array ends at LBA 33 but the first usable block is
/// 2048 rather than 34.
#[test]
fn fixture_reads_back_as_a_healthy_disk() {
    let img = deck_image();
    assert!(img.is_clean(), "fixture should be healthy:\n{}", img.verify());

    let mut dev = img.disk();
    let analysis = analyze(&mut dev, &CRC).unwrap();
    assert_eq!(analysis.verdict, Verdict::Healthy);
    assert!(dev.writes().is_empty());

    let primary = analysis.main.as_ref().unwrap();
    assert_eq!(primary.header.first_usable_lba, 2048);
    assert_eq!(primary.header.last_usable_lba, 1_953_525_134);
    assert_eq!(primary.header.number_of_partition_entries, 128);
    assert_eq!(primary.header.size_of_partition_entry, 128);
    assert_eq!(analysis.last_block, 1_953_525_167);
}

/// The gap between the entry array (ending at LBA 33) and the first usable
/// block (2048) is unusual enough that partitioners warn about it.
#[test]
fn entry_array_gap_before_first_usable_is_accepted() {
    let img = deck_image();
    let mut dev = img.disk();
    let analysis = analyze(&mut dev, &CRC).unwrap();
    let header = &analysis.main.as_ref().unwrap().header;
    let blocks = header.entry_array_blocks(512).unwrap();
    assert_eq!(blocks, 32);
    assert!(2 + blocks < header.first_usable_lba, "expected a gap, not a tight fit");
}

/// The check that matters: with the primary destroyed, is the real backup
/// accepted as a repair source?
#[test]
fn real_deck_backup_is_accepted_as_a_repair_source() {
    let img = deck_image();
    img.zero_lba(1, 1);

    let mut dev = img.disk();
    let analysis = analyze(&mut dev, &CRC).unwrap();
    assert_eq!(
        analysis.verdict,
        Verdict::MainRepairable,
        "refused the real disk: {:?}",
        analysis.rejection
    );

    let rec = analysis.recognition.as_ref().expect("assessed");
    assert_eq!(rec.confidence, Confidence::SteamOs, "missing: {:?}", rec.missing);
    assert!(rec.missing_critical.is_empty());
    assert!(rec.unknown_types.is_empty(), "unrecognised types: {:?}", rec.unknown_types);
}

/// End to end on the real layout, judged from the bytes.
#[test]
fn real_deck_primary_is_repaired() {
    let img = deck_image();
    let before = img.print();

    img.zero_lba(1, 1);
    assert!(!img.is_clean());

    let mut dev = img.disk();
    let analysis = analyze(&mut dev, &CRC).unwrap();
    let repair = plan(&analysis, &CRC).expect("a plan");
    assert_eq!(repair.header.my_lba, 1);
    assert_eq!(repair.header.alternate_lba, 1_953_525_167);
    assert_eq!(repair.header.partition_entry_lba, 2);
    apply(&mut dev, &repair).unwrap();
    drop(dev);

    assert!(img.is_clean(), "unhappy after repair:\n{}", img.verify());
    assert_eq!(before, img.print(), "table changed");
}

/// The protective MBR on the real disk is already canonical, so the tool
/// must leave LBA 0 alone.
#[test]
fn real_protective_mbr_needs_no_repair() {
    let img = deck_image();
    let mut dev = img.disk();
    let analysis = analyze(&mut dev, &CRC).unwrap();
    assert_eq!(analysis.mbr, MbrStatus::Protective);
    assert!(!analysis.mbr.needs_repair());

    // And what we would generate matches what is already there.
    let regenerated = mbr::generate(Some(&analysis.mbr_raw), 512, analysis.last_block);
    assert_eq!(regenerated[440..512], analysis.mbr_raw[440..512], "MBR record differs");
}

/// Every partition type on the disk should be nameable, or the report
/// tells the operator "unknown" about a perfectly normal Deck.
#[test]
fn every_type_guid_on_the_real_disk_is_known() {
    let img = deck_image();
    let mut dev = img.disk();
    let analysis = analyze(&mut dev, &CRC).unwrap();
    let table = analysis.main.as_ref().unwrap();

    let mut unknown = Vec::new();
    for (i, e) in table.used_entries() {
        if layout::describe_type(&e.type_guid) == "unknown" {
            unknown.push((i + 1, e.type_guid, e.name_string()));
        }
    }
    assert!(unknown.is_empty(), "unnamed partition types: {unknown:?}");
}

// ---------------------------------------------------------------- prevention

/// The real disk has FirstUsableLBA 2048 with the entry array ending at 33,
/// which is exactly the gap the Windows corruption's arithmetic trips over.
#[test]
fn the_real_deck_is_a_candidate_for_closing_the_gap() {
    let img = deck_image();
    let mut dev = img.disk();
    let analysis = analyze(&mut dev, &CRC).unwrap();
    assert_eq!(
        gptcore::prevent::assess(&analysis),
        gptcore::prevent::Verdict::Applicable { current: 2048, proposed: 34 }
    );
}

#[test]
fn closing_the_gap_leaves_the_disk_healthy_and_the_table_unchanged() {
    let img = deck_image();
    let before = img.print();

    let mut dev = img.disk();
    let analysis = analyze(&mut dev, &CRC).unwrap();
    let plan = gptcore::prevent::plan(&analysis, &CRC).expect("a plan");

    // Only the two header blocks; the entry arrays are already correct.
    let touched: Vec<u64> = plan.writes().iter().map(|(lba, _)| *lba).collect();
    assert_eq!(touched, vec![1, 1_953_525_167]);

    apply(&mut dev, &plan).unwrap();
    drop(dev);

    assert!(img.is_clean(), "unhappy:\n{}", img.verify());
    assert_eq!(before, img.print(), "partitions must not move");

    let mut dev = img.disk();
    let after = analyze(&mut dev, &CRC).unwrap();
    assert_eq!(after.verdict, Verdict::Healthy);
    assert_eq!(after.main.as_ref().unwrap().header.first_usable_lba, 34);
    assert_eq!(after.secondary.as_ref().unwrap().header.first_usable_lba, 34);
}

#[test]
fn closing_the_gap_is_idempotent() {
    let img = deck_image();
    let mut dev = img.disk();
    let analysis = analyze(&mut dev, &CRC).unwrap();
    apply(&mut dev, &gptcore::prevent::plan(&analysis, &CRC).unwrap()).unwrap();
    drop(dev);

    let mut dev = img.disk();
    let second = analyze(&mut dev, &CRC).unwrap();
    assert_eq!(
        gptcore::prevent::assess(&second),
        gptcore::prevent::Verdict::AlreadyMinimal { current: 34 }
    );
    assert!(gptcore::prevent::plan(&second, &CRC).is_none());
}

/// The hybrid-MBR refusal is unconditional, and this operation is the one
/// place it could have leaked.
///
/// Nothing about a hybrid MBR makes either GPT invalid, so every check
/// prevention makes would pass: the tables are healthy, the entry array is
/// at LBA 2, and the real Deck has a gap to close. Repair refuses such a
/// disk on `analysis.verdict`, which prevention has no reason to consult —
/// so without an explicit check this would rewrite both headers on a disk
/// the tool has promised not to touch.
#[test]
fn a_hybrid_mbr_is_refused_for_prevention_though_both_gpts_are_healthy() {
    let img = deck_image();
    let mut mbr = img.read_lba(0, 1);
    // A real NTFS record beside the protective one, as in the repair test.
    let rec = 446 + 16;
    mbr[rec] = 0x80;
    mbr[rec + 4] = 0x07;
    mbr[rec + 8..rec + 12].copy_from_slice(&2048u32.to_le_bytes());
    mbr[rec + 12..rec + 16].copy_from_slice(&524_288u32.to_le_bytes());
    img.write_lba(0, &mbr);

    let mut dev = img.disk();
    let analysis = analyze(&mut dev, &CRC).unwrap();

    // The precondition that makes this test worth having: both tables are
    // fine, so nothing but the MBR check stands between us and a write.
    assert!(analysis.main.as_ref().unwrap().is_valid());
    assert!(analysis.secondary.as_ref().unwrap().is_valid());

    assert_eq!(
        gptcore::prevent::assess(&analysis),
        gptcore::prevent::Verdict::Refused(gptcore::prevent::Blocker::HybridMbr)
    );
    assert!(gptcore::prevent::plan(&analysis, &CRC).is_none());
    assert!(dev.writes().is_empty());
}

/// A disk whose primary is broken must be repaired first; this operation
/// rewrites healthy headers and has no business guessing at a damaged one.
#[test]
fn a_damaged_disk_is_refused_for_prevention() {
    let img = deck_image();
    img.zero_lba(1, 1);
    let mut dev = img.disk();
    let analysis = analyze(&mut dev, &CRC).unwrap();
    assert_eq!(
        gptcore::prevent::assess(&analysis),
        gptcore::prevent::Verdict::Refused(gptcore::prevent::Blocker::TableNotHealthy)
    );
    assert!(gptcore::prevent::plan(&analysis, &CRC).is_none());
    assert!(dev.writes().is_empty());
}

#[test]
fn the_header_crc_is_valid_so_only_two_checks_catch_this() {
    let img = deck_corrupt_image();
    let mut dev = img.disk();
    let analysis = analyze(&mut dev, &CRC).unwrap();
    let main = analysis.main.as_ref().unwrap();

    assert!(
        !main.defects.iter().any(|d| matches!(d, Defect::HeaderCrcMismatch { .. })),
        "the real corruption has a VALID header CRC; a check that only \
         verifies that would call this disk healthy: {:?}",
        main.defects
    );
    assert!(
        main.defects.iter().any(|d| matches!(d, Defect::MainEntryLbaNotTwo { found: 2016 })),
        "{:?}",
        main.defects
    );
    assert!(
        main.defects.iter().any(|d| matches!(d, Defect::EntryArrayCrcMismatch { .. })),
        "{:?}",
        main.defects
    );
    assert!(!main.is_valid());
}

/// Everything else about the disk was intact, including the protective MBR
/// and the secondary GPT, so the tool must not touch them.
#[test]
fn only_the_main_gpt_was_damaged() {
    let img = deck_corrupt_image();
    let mut dev = img.disk();
    let analysis = analyze(&mut dev, &CRC).unwrap();

    assert_eq!(analysis.mbr, MbrStatus::Protective);
    assert!(!analysis.mbr.needs_repair());
    assert!(analysis.secondary.as_ref().unwrap().is_valid());
    assert_eq!(analysis.verdict, Verdict::MainRepairable, "{:?}", analysis.rejection);

    let repair = plan(&analysis, &CRC).unwrap();
    let touched: Vec<u64> = repair.writes().iter().map(|(lba, _)| *lba).collect();
    assert_eq!(touched, vec![2, 1], "should write only the entry array then the header");
}

/// The strongest assertion available: our repair against an independent
/// implementation's, on the same bytes.
#[test]
fn repair_matches_gdisk_byte_for_byte() {
    let img = deck_corrupt_image();
    assert!(!img.is_clean(), "fixture should start broken");

    let mut dev = img.disk();
    let analysis = analyze(&mut dev, &CRC).unwrap();
    let repair = plan(&analysis, &CRC).expect("a plan");
    apply(&mut dev, &repair).unwrap();
    drop(dev);

    let expected = deck_expected_fixed_head();
    let got = img.read_lba(0, 34);
    for lba in 0..34usize {
        let lo = lba * BLOCK_SIZE as usize;
        let hi = lo + BLOCK_SIZE as usize;
        assert_eq!(
            &got[lo..hi],
            &expected[lo..hi],
            "LBA {lba} differs from what another tool wrote when it repaired this disk"
        );
    }

    assert!(img.is_clean(), "unhappy after repair:\n{}", img.verify());
}

#[test]
fn repaired_disk_is_healthy_and_stays_healthy() {
    let img = deck_corrupt_image();
    let mut dev = img.disk();
    let analysis = analyze(&mut dev, &CRC).unwrap();
    apply(&mut dev, &plan(&analysis, &CRC).unwrap()).unwrap();
    drop(dev);

    let mut dev = img.disk();
    let second = analyze(&mut dev, &CRC).unwrap();
    assert_eq!(second.verdict, Verdict::Healthy);
    assert!(plan(&second, &CRC).is_none());
    assert_eq!(second.main.as_ref().unwrap().header.partition_entry_lba, 2);
    assert!(dev.writes().is_empty());
}

fn report(image: &Image) -> String {
    let mut dev = image.disk();
    let analysis = analyze(&mut dev, &CRC).expect("analyze");
    plain(&diag::render_disk(&analysis))
}

#[test]
fn a_healthy_deck_reports_every_header_field() {
    let text = report(&deck_image());
    for wanted in [
        "signature",
        "\"EFI PART\"",
        "my LBA",
        "alternate LBA",
        "first usable LBA  : 2048",
        "last usable LBA   : 1953525134",
        "entry array       : 128 entries x 128 bytes",
        "Main GPT header:",
        "Secondary GPT header:",
        "defects           : none",
    ] {
        assert!(text.contains(wanted), "report has no {wanted:?}:\n{text}");
    }
}

/// The four records are printed whether or not the MBR is healthy: it is
/// the evidence behind the word "protective", and the only place a hybrid
/// MBR can be seen rather than merely asserted.
#[test]
fn the_protective_mbr_is_printed_as_numbers() {
    let text = report(&deck_image());
    assert!(text.contains("MBR partition records at LBA 0:"), "{text}");
    assert!(text.contains("0xEE"), "no protective record in:\n{text}");
    // Three unused slots follow the one protective record.
    assert_eq!(text.matches("(unused)").count(), 3, "{text}");
}

/// Every partition carries two GUIDs, and the unique one is what identifies
/// this machine's disk in somebody else's thread.
#[test]
fn partitions_carry_both_guids_and_their_attributes() {
    let text = report(&deck_image());
    assert!(text.contains("Partitions, as the main GPT has them:"), "{text}");
    assert!(text.contains("\"esp\""), "{text}");
    assert!(text.contains("EFI system partition"), "{text}");
    assert!(text.contains("type   C12A7328-F81F-11D2-BA4B-00A0C93EC93B"), "{text}");
    assert!(text.contains("unique "), "{text}");
    assert!(text.contains("attrs  0x"), "{text}");
}

/// A healthy disk's two tables agree, and saying so once beats printing
/// forty identical lines a second time.
#[test]
fn identical_tables_are_stated_rather_than_repeated() {
    let text = report(&deck_image());
    assert!(text.contains("The secondary GPT lists exactly the same partitions."), "{text}");
    assert_eq!(text.matches("Partitions, as").count(), 1, "{text}");
}

/// The real corruption: a main header whose CRC is valid but which points
/// its entry array at the wrong LBA. The report has to show the defect and
/// the field it was derived from, or it proves nothing to a reader.
#[test]
fn a_wrecked_main_gpt_shows_the_defect_and_the_field_behind_it() {
    let text = report(&deck_corrupt_image());
    assert!(text.contains("defect"), "no defect reported:\n{text}");
    assert!(text.contains("entry array LBA   : 2016"), "{text}");
    // The secondary is intact and still points at its own array, so the
    // two headers must not read alike.
    assert!(text.contains("Secondary GPT header:"), "{text}");
}

fn now() -> Timestamp {
    Timestamp { year: 2026, month: 8, day: 1, hour: 12, minute: 13, second: 14 }
}

fn meta() -> Vec<(String, String)> {
    vec![
        ("tool".to_string(), "efigptfix test".to_string()),
        ("firmware".to_string(), "Valve rev 0x10033".to_string()),
    ]
}

/// Capture, serialise and read back, exactly as the application does.
fn snapshot(img: &Image) -> backup::Archive {
    let mut disk = img.disk();
    let analysis = analyze(&mut disk, &CRC).expect("analyze");
    let archive = backup::capture(&mut disk, &analysis, now(), meta()).expect("capture");
    let bytes = encode(&archive, &CRC);
    decode(&bytes, &CRC).expect("decode what we just encoded")
}

#[test]
fn a_healthy_deck_is_captured_whole() {
    let img = deck_image();
    let archive = snapshot(&img);

    assert_eq!(archive.block_size, 512);
    assert_eq!(archive.last_block, img.last_block());
    assert_eq!(archive.health, Health::Healthy);

    // Every structure a GPT consists of, and nothing else.
    let mut roles: Vec<&'static str> = archive.chunks.iter().map(|c| c.role.describe()).collect();
    roles.sort_unstable();
    assert_eq!(
        roles,
        vec![
            "backup GPT header",
            "backup partition entry array",
            "primary GPT header",
            "primary partition entry array",
            "protective MBR",
        ]
    );

    let primary = archive.chunk(Role::PrimaryEntries).expect("primary array");
    assert_eq!(primary.lba, 2);
    assert_eq!(primary.data.len(), 32 * 512);
    assert_eq!(archive.chunk(Role::BackupHeader).unwrap().lba, img.last_block());

    // The bytes are the disk's, not a reconstruction.
    assert_eq!(primary.data, img.read_lba(2, 32));
    assert_eq!(archive.chunk(Role::PrimaryHeader).unwrap().data, img.read_lba(1, 1));
}

#[test]
fn restoring_onto_an_untouched_disk_changes_nothing() {
    let img = deck_image();
    let before = img.read_lba(0, 34);
    let archive = snapshot(&img);

    let mut disk = img.disk();
    let analysis = analyze(&mut disk, &CRC).expect("analyze");
    let plan = restore_plan(&archive, &analysis).expect("plan");
    apply(&mut disk, &plan).expect("apply");

    assert_eq!(img.read_lba(0, 34), before);
    assert!(img.is_clean(), "{}", img.verify());
}

#[test]
fn a_wrecked_primary_is_put_back_exactly() {
    let img = deck_image();
    let before_head = img.read_lba(0, 34);
    let before_print = img.print();
    let archive = snapshot(&img);

    // Destroy the primary header and its entry array outright.
    img.zero_lba(1, 33);
    {
        let mut disk = img.disk();
        let analysis = analyze(&mut disk, &CRC).expect("analyze");
        assert!(analysis.main.as_ref().is_ok_and(|t| !t.is_valid()));
    }

    let mut disk = img.disk();
    let analysis = analyze(&mut disk, &CRC).expect("analyze");
    let plan = restore_plan(&archive, &analysis).expect("plan");
    apply(&mut disk, &plan).expect("apply");

    assert_eq!(img.read_lba(0, 34), before_head, "restore was not byte-exact");
    assert_eq!(img.print(), before_print);
    assert!(img.is_clean(), "{}", img.verify());
}

#[test]
fn entry_arrays_are_durable_before_the_headers_that_name_them() {
    let img = deck_image();
    let archive = snapshot(&img);
    img.zero_lba(1, 33);

    let mut disk = img.disk();
    let analysis = analyze(&mut disk, &CRC).expect("analyze");
    let plan = restore_plan(&archive, &analysis).expect("plan");
    apply(&mut disk, &plan).expect("apply");

    let ops = disk.writes();
    let first_flush = ops.iter().position(|o| *o == Op::Flush).expect("a flush");
    let header_lbas = [1u64, img.last_block()];
    for (i, op) in ops.iter().enumerate() {
        if let Op::Write { lba, .. } = op {
            if header_lbas.contains(lba) {
                assert!(i > first_flush, "header at LBA {lba} was written before the flush");
            }
        }
    }
}

#[test]
fn a_snapshot_of_the_real_corruption_records_that_it_was_corrupt() {
    let img = deck_corrupt_image();
    let archive = snapshot(&img);

    assert_eq!(archive.health, Health::PrimaryCorrupt);
    assert!(!archive.health.is_clean());
    // The array really was at 2016 on this disk; the snapshot follows the
    // header rather than assuming LBA 2.
    assert_eq!(archive.chunk(Role::PrimaryEntries).unwrap().lba, 2016);

    let text = gptcore::style::plain(&backup::describe(&archive));
    assert!(text.contains("PRIMARY WAS CORRUPT"), "{text}");
    assert!(text.contains("Restoring it reinstates the damage"), "{text}");
}

#[test]
fn a_backup_from_a_differently_sized_disk_is_refused() {
    let img = deck_image();
    let archive = snapshot(&img);

    // Same image, but the device now claims to be smaller — the shape of a
    // drive swap, or of restoring the wrong file.
    let mut disk = img.sized(img.sectors - 4096);
    let analysis = analyze(&mut disk, &CRC).expect("analyze");
    match restore_plan(&archive, &analysis) {
        Err(Mismatch::LastBlock { archive: a, disk: d }) => {
            assert_eq!(a, img.last_block());
            assert_eq!(d, img.sectors - 4096 - 1);
        }
        other => panic!("expected a geometry refusal, got {other:?}"),
    }
}

#[test]
fn a_damaged_backup_file_is_never_acted_on() {
    let img = deck_image();
    let mut disk = img.disk();
    let analysis = analyze(&mut disk, &CRC).expect("analyze");
    let archive = backup::capture(&mut disk, &analysis, now(), meta()).expect("capture");
    let mut bytes = encode(&archive, &CRC);

    // One bit inside a partition entry: the sort of damage that would
    // otherwise restore a plausible-looking but wrong table.
    let target = bytes.len() / 2;
    bytes[target] ^= 0x08;
    assert!(matches!(decode(&bytes, &CRC), Err(DecodeError::BadChecksum { .. })));
}

#[test]
fn a_restore_names_every_write_before_it_happens() {
    let img = deck_image();
    let archive = snapshot(&img);
    let mut disk = img.disk();
    let analysis = analyze(&mut disk, &CRC).expect("analyze");
    let plan = restore_plan(&archive, &analysis).expect("plan");

    let described: Vec<String> = plan.writes().iter().map(|(lba, what)| format!("{lba} {what}")).collect();
    assert_eq!(described.len(), 5, "{described:?}");
    assert!(described.iter().any(|d| d.contains("protective MBR")));
    assert!(described.iter().any(|d| d.starts_with("1 primary GPT header")));
}

/// A genuine version-1 file: encode with no metadata, then strip the
/// (empty) metadata section and stamp the old version number.
fn downgrade_to_v1(archive: &backup::Archive) -> Vec<u8> {
    let mut bare = archive.clone();
    bare.meta.clear();
    let v2 = encode(&bare, &CRC);
    let body = &v2[..v2.len() - 4];
    let mut v1 = body[..body.len() - 4].to_vec();
    v1[8..12].copy_from_slice(&1u32.to_le_bytes());
    let sum = gptcore::Crc32::crc32(&CRC, &v1);
    v1.extend_from_slice(&sum.to_le_bytes());
    v1
}

#[test]
fn provenance_survives_the_round_trip() {
    let img = deck_image();
    let archive = snapshot(&img);
    assert_eq!(archive.version, backup::VERSION);
    assert_eq!(archive.meta_get("tool"), Some("efigptfix test"));
    assert_eq!(archive.meta_get("firmware"), Some("Valve rev 0x10033"));
    assert_eq!(archive.meta_get("nonexistent"), None);
}

#[test]
fn version_1_snapshots_are_still_readable() {
    let img = deck_image();
    let archive = snapshot(&img);
    let v1 = downgrade_to_v1(&archive);

    let old = decode(&v1, &CRC).expect("a v1 file must still decode");
    assert_eq!(old.version, 1);
    assert!(old.meta.is_empty());
    // Everything that matters for putting the disk back is still there.
    assert_eq!(old.last_block, archive.last_block);
    assert_eq!(old.disk_guid, archive.disk_guid);
    assert_eq!(old.chunks.len(), archive.chunks.len());

    let mut disk = img.disk();
    let analysis = analyze(&mut disk, &CRC).expect("analyze");
    restore_plan(&old, &analysis).expect("a v1 snapshot must still be restorable");
}

#[test]
fn a_snapshot_recognises_the_disk_it_came_from() {
    let img = deck_image();
    let archive = snapshot(&img);
    let mut disk = img.disk();
    let analysis = analyze(&mut disk, &CRC).expect("analyze");

    let c = backup::compare(&archive, &analysis);
    assert_eq!(c.verdict(), backup::Match::SameDisk);
    assert!(c.geometry);
    assert!(c.disk_guid);
    assert_eq!(c.shared_partitions, c.archive_partitions);
    assert!(c.archive_partitions >= 8, "{c:?}");
}

#[test]
fn partition_guids_identify_the_disk_even_after_the_disk_guid_changes() {
    let img = deck_image();
    let mut archive = snapshot(&img);
    // What a partitioner rewriting only the disk GUID would leave behind.
    archive.disk_guid = gptcore::Guid::from_fields(0xDEAD, 0xBEEF, 1, [9; 8]);

    let mut disk = img.disk();
    let analysis = analyze(&mut disk, &CRC).expect("analyze");
    let c = backup::compare(&archive, &analysis);
    assert!(!c.disk_guid);
    assert_eq!(c.verdict(), backup::Match::SameDisk, "{c:?}");
}

#[test]
fn a_snapshot_from_a_different_disk_is_not_claimed() {
    let img = deck_image();
    let archive = snapshot(&img);

    let other = steamos_image();
    let mut disk = other.disk();
    let analysis = analyze(&mut disk, &CRC).expect("analyze");
    let c = backup::compare(&archive, &analysis);
    assert_eq!(c.verdict(), backup::Match::DifferentDisk);
    assert_eq!(c.shared_partitions, 0);
}

#[test]
fn inspecting_a_snapshot_shows_what_identifies_it() {
    let img = deck_image();
    let archive = snapshot(&img);
    let mut disk = img.disk();
    let analysis = analyze(&mut disk, &CRC).expect("analyze");
    let c = backup::compare(&archive, &analysis);

    let text = gptcore::style::plain(&backup::inspect(&archive, Some(("Disk 1", &c))));
    assert!(text.contains("Belongs to:"), "{text}");
    assert!(text.contains("efigptfix test"), "{text}");
    assert!(text.contains("Unique GUID"), "{text}");
    assert!(text.contains("rootfs-A"), "{text}");
    // The per-partition GUID is the evidence; it must actually be printed.
    let guid =
        archive.entries().iter().find(|e| e.name_string() == "rootfs-A").unwrap().unique_guid;
    assert!(text.contains(&guid.to_text()), "{text}");
}

#[test]
fn snapshot_names_count_up_and_never_reuse_a_number() {
    assert_eq!(backup::next_name(&[]).as_deref(), Some("gpt.001"));
    let taken = vec!["gpt.001".to_string(), "GPT.002".to_string(), "notes.txt".to_string()];
    assert_eq!(backup::next_name(&taken).as_deref(), Some("gpt.003"));

    // Deleting gpt.002 must not make the next one gpt.002 again: the
    // numbering is what tells you which snapshot is newest.
    let gapped = vec!["gpt.001".to_string(), "gpt.007".to_string()];
    assert_eq!(backup::next_name(&gapped).as_deref(), Some("gpt.008"));

    assert_eq!(backup::sequence_of("gpt.042"), Some(42));
    assert_eq!(backup::sequence_of("GPT.999"), Some(999));
    assert_eq!(backup::sequence_of("gpt.1"), None);
    assert_eq!(backup::sequence_of("gpt.abc"), None);
    assert_eq!(backup::sequence_of("snapshot.001"), None);

    let full = vec!["gpt.999".to_string()];
    assert_eq!(backup::next_name(&full), None);
}
