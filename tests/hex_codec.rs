use ntru_token::{decode_hex, decode_hex_bytes, encode_hex, TokenError};

#[test]
fn encode_hex_is_lowercase_two_digits_per_byte() {
    assert_eq!(encode_hex(&[0x00, 0xab, 0x7f, 0x10]), b"00ab7f10".to_vec());
}

#[test]
fn encode_hex_of_nothing_is_empty() {
    assert_eq!(encode_hex(&[]), Vec::<u8>::new());
}

#[test]
fn decode_hex_reads_both_cases() {
    assert_eq!(decode_hex("ABcd09"), Ok(vec![0xab, 0xcd, 0x09]));
}

#[test]
fn decode_hex_of_empty_text() {
    assert_eq!(decode_hex(""), Ok(Vec::new()));
}

#[test]
fn decode_hex_rejects_odd_length() {
    assert_eq!(decode_hex("abc"), Err(TokenError::MalformedEnvelope));
}

#[test]
fn decode_hex_rejects_non_hex() {
    assert_eq!(decode_hex("zz"), Err(TokenError::MalformedEnvelope));
    assert_eq!(decode_hex("+f"), Err(TokenError::MalformedEnvelope));
    assert_eq!(decode_hex("0g"), Err(TokenError::MalformedEnvelope));
    assert_eq!(decode_hex("é0"), Err(TokenError::MalformedEnvelope));
}

#[test]
fn decode_undoes_encode() {
    let samples: Vec<Vec<u8>> = vec![
        vec![],
        vec![0],
        vec![0xff, 0x00, 0x80, 0x7f],
        (0..=255u8).collect(),
    ];
    for b in samples {
        let text = encode_hex(&b);
        assert_eq!(decode_hex_bytes(&text), Ok(b.clone()));
        assert_eq!(decode_hex(std::str::from_utf8(&text).unwrap()), Ok(b));
    }
}
