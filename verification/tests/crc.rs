use gptcore::{Crc32, SoftCrc32};

#[test]
fn matches_known_vectors() {
    assert_eq!(SoftCrc32.crc32(b""), 0x0000_0000);
    assert_eq!(SoftCrc32.crc32(b"123456789"), 0xCBF4_3926);
    assert_eq!(SoftCrc32.crc32(b"The quick brown fox jumps over the lazy dog"), 0x414F_A339);
}

#[test]
fn zero_filled_block_has_the_expected_crc() {
    // Cross-checked against zlib.crc32(bytes(512)).
    assert_eq!(SoftCrc32.crc32(&[0u8; 512]), 0xB2AA_7578);
}
