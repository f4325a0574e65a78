use gptcore::meta::{decode_meta, encode_meta, MAX_PAIRS};

#[test]
fn a_pair_round_trips() {
    let meta = vec![("tool".to_string(), "bootfixr 1.1.0".to_string())];
    assert_eq!(decode_meta(&encode_meta(&meta)), meta);
}

/// Nothing signs a snapshot, and a reader shows one line per pair.
#[test]
fn a_metadata_section_cannot_be_arbitrarily_long() {
    let text: String = (0..10_000).map(|i| format!("k{i}\tv\n")).collect();
    assert_eq!(decode_meta(text.as_bytes()).len(), MAX_PAIRS);
}

#[test]
fn text_that_is_not_utf8_is_no_metadata_at_all() {
    assert!(decode_meta(&[0xff, 0xfe, b'\t', b'x']).is_empty());
}
