use gptcore::disk::{read_lbas, BlockDevice, IoError};
use gptcore::memdisk::MemDisk;
use gptcore::repair::{analyze, Verdict};
use gptcore::SoftCrc32;

fn disk(blocks: usize, writable: bool) -> MemDisk {
    MemDisk::new(vec![0u8; blocks * 512], 512, writable).unwrap()
}

#[test]
fn a_disk_in_memory_is_whole_blocks() {
    assert!(MemDisk::new(vec![0u8; 1000], 512, true).is_none());
    assert!(MemDisk::new(Vec::new(), 512, true).is_none());
    assert!(MemDisk::new(vec![0u8; 512], 0, true).is_none());
    let d = disk(4, true);
    assert_eq!(d.block_size(), 512);
    assert_eq!(d.last_block(), 3);
}

#[test]
fn a_disk_in_memory_gives_back_what_was_written() {
    let mut d = disk(4, true);
    assert_eq!(d.write_blocks(2, &[7u8; 512]), Ok(()));
    assert_eq!(d.flush(), Ok(()));
    assert_eq!(read_lbas(&mut d, 2, 1), Ok(vec![7u8; 512]));
    assert_eq!(read_lbas(&mut d, 1, 1), Ok(vec![0u8; 512]));
    assert!(d.contents()[..1024].iter().all(|b| *b == 0));
    assert!(d.contents()[1024..1536].iter().all(|b| *b == 7));
    assert!(d.contents()[1536..].iter().all(|b| *b == 0));
}

#[test]
fn a_disk_in_memory_refuses_what_is_not_on_it() {
    let mut d = disk(4, true);
    assert_eq!(d.write_blocks(4, &[7u8; 512]), Err(IoError::OutOfRange));
    assert_eq!(d.write_blocks(3, &[7u8; 1024]), Err(IoError::OutOfRange));
    assert_eq!(d.write_blocks(u64::MAX, &[7u8; 512]), Err(IoError::OutOfRange));
    assert_eq!(d.write_blocks(0, &[7u8; 100]), Err(IoError::Unaligned));
    let mut buf = [9u8; 512];
    assert_eq!(d.read_blocks(4, &mut buf), Err(IoError::OutOfRange));
    assert_eq!(d.read_blocks(0, &mut buf[..100]), Err(IoError::Unaligned));
    assert_eq!(buf, [9u8; 512]);
    assert!(d.contents().iter().all(|b| *b == 0));
}

#[test]
fn a_read_only_disk_in_memory_is_not_written() {
    let mut d = disk(4, false);
    assert_eq!(d.write_blocks(0, &[7u8; 512]), Err(IoError::ReadOnly));
    assert!(d.contents().iter().all(|b| *b == 0));
}

#[test]
fn an_empty_disk_in_memory_has_no_table() {
    let mut d = disk(128, true);
    let a = analyze(&mut d, &SoftCrc32).unwrap();
    assert!(matches!(a.verdict, Verdict::Unrecoverable));
}
