use gptcore::Guid;

#[test]
fn esp_guid_round_trips_through_text() {
    let esp = Guid::from_fields(
        0xC12A_7328,
        0xF81F,
        0x11D2,
        [0xBA, 0x4B, 0x00, 0xA0, 0xC9, 0x3E, 0xC9, 0x3B],
    );
    assert_eq!(esp.to_text(), "C12A7328-F81F-11D2-BA4B-00A0C93EC93B");
}

#[test]
fn on_disk_byte_order_is_mixed_endian() {
    // Exactly the bytes sgdisk writes for the ESP type GUID.
    let esp = Guid::from_fields(
        0xC12A_7328,
        0xF81F,
        0x11D2,
        [0xBA, 0x4B, 0x00, 0xA0, 0xC9, 0x3E, 0xC9, 0x3B],
    );
    assert_eq!(
        esp.as_bytes(),
        &[
            0x28, 0x73, 0x2A, 0xC1, 0x1F, 0xF8, 0xD2, 0x11, 0xBA, 0x4B, 0x00, 0xA0, 0xC9, 0x3E,
            0xC9, 0x3B
        ]
    );
}

#[test]
fn zero_guid_marks_an_unused_entry() {
    assert!(Guid::nil().is_zero());
    assert!(!Guid::from_fields(1, 0, 0, [0; 8]).is_zero());
}
