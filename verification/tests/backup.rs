use gptcore::backup::{
    decode, default_array_blocks, encode, Archive, Chunk, DecodeError, Health, Role, Timestamp,
    VERSION,
};
use gptcore::{Guid, SoftCrc32};

fn sample() -> Archive {
    Archive {
        version: VERSION,
        block_size: 512,
        last_block: 1_953_525_167,
        disk_guid: Guid::from_fields(1, 2, 3, [4; 8]),
        time: Timestamp { year: 2026, month: 8, day: 1, hour: 12, minute: 13, second: 14 },
        health: Health::Healthy,
        meta: vec![(String::from("tool"), String::from("test"))],
        chunks: vec![
            Chunk { role: Role::Mbr, lba: 0, data: vec![0xAA; 512] },
            Chunk { role: Role::PrimaryEntries, lba: 2, data: vec![0x11; 512 * 32] },
            Chunk { role: Role::PrimaryHeader, lba: 1, data: vec![0x22; 512] },
        ],
    }
}

#[test]
fn round_trips() {
    let a = sample();
    let bytes = encode(&a, &SoftCrc32);
    let b = decode(&bytes, &SoftCrc32).expect("decode");
    assert_eq!(b.block_size, a.block_size);
    assert_eq!(b.last_block, a.last_block);
    assert_eq!(b.disk_guid, a.disk_guid);
    assert_eq!(b.time, a.time);
    assert_eq!(b.health, a.health);
    assert_eq!(b.chunks.len(), 3);
    assert_eq!(b.chunk(Role::PrimaryEntries).unwrap().data, vec![0x11; 512 * 32]);
}

#[test]
fn a_single_flipped_bit_is_caught() {
    let mut bytes = encode(&sample(), &SoftCrc32);
    let n = bytes.len() / 2;
    bytes[n] ^= 0x01;
    assert!(matches!(decode(&bytes, &SoftCrc32), Err(DecodeError::BadChecksum { .. })));
}

#[test]
fn every_flipped_bit_is_caught() {
    let mut a = sample();
    a.chunks.truncate(1);
    let good = encode(&a, &SoftCrc32);
    for k in 0..good.len() {
        for bit in 0..8 {
            let mut bytes = good.clone();
            bytes[k] ^= 1 << bit;
            let r = decode(&bytes, &SoftCrc32);
            match k {
                0..=7 => assert!(matches!(r, Err(DecodeError::BadMagic)), "{k}.{bit}"),
                8..=11 => assert!(
                    matches!(r, Err(DecodeError::UnsupportedVersion { .. })),
                    "{k}.{bit}"
                ),
                _ => assert!(matches!(r, Err(DecodeError::BadChecksum { .. })), "{k}.{bit}"),
            }
        }
    }
    let mut bytes = good.clone();
    bytes[8] = 1;
    assert!(matches!(decode(&bytes, &SoftCrc32), Err(DecodeError::BadChecksum { .. })));
    for cut in 0..56 {
        assert!(matches!(decode(&good[..cut], &SoftCrc32), Err(DecodeError::TooShort)));
    }
}

#[test]
fn truncation_is_caught() {
    let bytes = encode(&sample(), &SoftCrc32);
    let short = &bytes[..bytes.len() - 100];
    // Losing the tail also loses the checksum, so this is rejected
    // whichever way it is read; what matters is that it is rejected.
    assert!(decode(short, &SoftCrc32).is_err());
}

#[test]
fn foreign_files_are_rejected() {
    assert!(matches!(decode(&vec![0u8; 4096], &SoftCrc32), Err(DecodeError::BadMagic)));
    assert!(matches!(decode(b"EFIGPTBK", &SoftCrc32), Err(DecodeError::TooShort)));
}

#[test]
fn conventional_array_is_32_blocks_at_512_and_4_at_4k() {
    assert_eq!(default_array_blocks(512), 32);
    assert_eq!(default_array_blocks(4096), 4);
    assert_eq!(default_array_blocks(0), 0);
}
