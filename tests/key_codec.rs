use dbcheck::key::{parse_key, KeyForm, KeyFormatError};

#[test]
fn hex_without_prefix() {
    let k = parse_key("0A1B2C").unwrap();
    assert_eq!(k.bytes, vec![0x0A, 0x1B, 0x2C]);
    assert_eq!(k.form, KeyForm::Hex);
}

#[test]
fn hex_with_prefix() {
    let k = parse_key("0x0A1B2C").unwrap();
    assert_eq!(k.bytes, vec![0x0A, 0x1B, 0x2C]);
    assert_eq!(k.form, KeyForm::Hex);
}

#[test]
fn hex_mixed_case() {
    let k = parse_key("fF0a").unwrap();
    assert_eq!(k.bytes, vec![0xFF, 0x0A]);
}

#[test]
fn hex_empty_text_is_empty_key() {
    assert_eq!(parse_key("").unwrap().bytes, Vec::<u8>::new());
    assert_eq!(parse_key("0x").unwrap().bytes, Vec::<u8>::new());
}

#[test]
fn hex_odd_length_is_error() {
    assert_eq!(parse_key("0A1").unwrap_err(), KeyFormatError::BadHex);
}

#[test]
fn hex_bad_digit_is_error() {
    assert_eq!(parse_key("0G").unwrap_err(), KeyFormatError::BadHex);
    assert_eq!(parse_key("é1").unwrap_err(), KeyFormatError::BadHex);
}

#[test]
fn empty_array_is_empty_key() {
    let k = parse_key("[]").unwrap();
    assert!(k.bytes.is_empty());
    assert_eq!(k.form, KeyForm::Bytes);
}

#[test]
fn byte_array() {
    let k = parse_key("[10,27,44]").unwrap();
    assert_eq!(k.bytes, vec![10, 27, 44]);
    assert_eq!(k.form, KeyForm::Bytes);
}

#[test]
fn byte_array_with_spaces() {
    let k = parse_key("  [ 10 , 27,\t44 ] ").unwrap();
    assert_eq!(k.bytes, vec![10, 27, 44]);
}

#[test]
fn byte_array_out_of_range_is_error() {
    assert_eq!(parse_key("[1,256,3]").unwrap_err(), KeyFormatError::BadArrayElement);
}

#[test]
fn byte_array_non_numeric_is_error() {
    assert_eq!(parse_key("[1,x,3]").unwrap_err(), KeyFormatError::BadArrayElement);
    assert_eq!(parse_key("[1,,3]").unwrap_err(), KeyFormatError::BadArrayElement);
    assert_eq!(parse_key("[-1]").unwrap_err(), KeyFormatError::BadArrayElement);
}

#[test]
fn byte_array_accepts_plus_sign() {
    assert_eq!(parse_key("[+7]").unwrap().bytes, vec![7]);
}

#[test]
fn four_elements_read_as_words() {
    let k = parse_key("[1,2,3,4]").unwrap();
    assert_eq!(k.form, KeyForm::Words);
    assert_eq!(k.bytes.len(), 32);
    let mut expected = Vec::new();
    for w in [1u64, 2, 3, 4] {
        expected.extend_from_slice(&w.to_le_bytes());
    }
    assert_eq!(k.bytes, expected);
}

#[test]
fn four_words_round_trip() {
    let ws = [u64::MAX, 0, 0x0102_0304_0506_0708, 255];
    let text = format!("[{}_u64, {}, {}_u64,{}]", ws[0], ws[1], ws[2], ws[3]);
    let k = parse_key(&text).unwrap();
    assert_eq!(k.bytes.len(), 32);
    for i in 0..4 {
        let mut b = [0u8; 8];
        b.copy_from_slice(&k.bytes[8 * i..8 * i + 8]);
        assert_eq!(u64::from_le_bytes(b), ws[i]);
    }
}

#[test]
fn four_elements_word_overflow_is_error() {
    assert_eq!(
        parse_key("[18446744073709551616,1,2,3]").unwrap_err(),
        KeyFormatError::BadArrayElement
    );
}

#[test]
fn four_elements_bad_element_is_error() {
    assert_eq!(parse_key("[1,2,3,z]").unwrap_err(), KeyFormatError::BadArrayElement);
}

#[test]
fn thirty_two_bytes() {
    let text = format!("[{}]", (0..32).map(|i| i.to_string()).collect::<Vec<_>>().join(","));
    let k = parse_key(&text).unwrap();
    assert_eq!(k.bytes, (0..32).collect::<Vec<u8>>());
    assert_eq!(k.u64_word_count(), Some(4));
}

#[test]
fn word_count_note() {
    assert_eq!(parse_key("0011223344556677").unwrap().u64_word_count(), Some(1));
    assert_eq!(parse_key("001122").unwrap().u64_word_count(), None);
    assert_eq!(parse_key("").unwrap().u64_word_count(), None);
}
