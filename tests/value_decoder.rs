use dbcheck::value::{decode_value, record_kind, RecordKind, DATA_CF_NAME, MERKLE_CF_NAME};

#[test]
fn four_bytes_give_u32_only() {
    let r = decode_value(&[1, 2, 3, 4], RecordKind::Plain);
    assert_eq!(r.as_u32, Some(0x0403_0201));
    assert_eq!(r.as_u64, None);
}

#[test]
fn eight_bytes_give_u64_only() {
    let r = decode_value(&[1, 2, 3, 4, 5, 6, 7, 8], RecordKind::Plain);
    assert_eq!(r.as_u64, Some(0x0807_0605_0403_0201));
    assert_eq!(r.as_u32, None);
}

#[test]
fn other_lengths_give_no_number() {
    for n in [0usize, 1, 3, 5, 7, 9, 16] {
        let r = decode_value(&vec![0xAB; n], RecordKind::Plain);
        assert_eq!(r.as_u32, None);
        assert_eq!(r.as_u64, None);
    }
}

#[test]
fn largest_numbers() {
    assert_eq!(decode_value(&[0xFF; 4], RecordKind::Plain).as_u32, Some(u32::MAX));
    assert_eq!(decode_value(&[0xFF; 8], RecordKind::Plain).as_u64, Some(u64::MAX));
}

#[test]
fn hex_and_bytes_always_present() {
    let r = decode_value(&[0x00, 0x0F, 0xA0, 0xFF], RecordKind::Merkle);
    assert_eq!(r.hex, "000fa0ff");
    assert_eq!(r.bytes, vec![0x00, 0x0F, 0xA0, 0xFF]);
    assert_eq!(r.record, RecordKind::Merkle);
}

#[test]
fn empty_value_decodes() {
    let r = decode_value(&[], RecordKind::DataHash);
    assert!(r.bytes.is_empty());
    assert_eq!(r.hex, "");
    assert_eq!(r.text, Some(String::new()));
    assert_eq!(r.record, RecordKind::DataHash);
}

#[test]
fn utf8_text_candidate() {
    let r = decode_value("héllo".as_bytes(), RecordKind::Plain);
    assert_eq!(r.text, Some("héllo".to_string()));
}

#[test]
fn invalid_utf8_is_marked_not_text() {
    let r = decode_value(&[0xFF, 0xFE, 0x80], RecordKind::Plain);
    assert_eq!(r.text, None);
    assert_eq!(r.hex, "fffe80");
    let r = decode_value(&[0xED, 0xA0, 0x80], RecordKind::Plain);
    assert_eq!(r.text, None);
}

#[test]
fn column_family_kinds() {
    assert_eq!(record_kind(MERKLE_CF_NAME), RecordKind::Merkle);
    assert_eq!(record_kind(DATA_CF_NAME), RecordKind::DataHash);
    assert_eq!(record_kind("default"), RecordKind::Plain);
    assert_eq!(record_kind("merkle_records "), RecordKind::Plain);
}
