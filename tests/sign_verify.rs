use ntru_token::envelope::DIGEST_LEN;
use ntru_token::{
    check_capacity, check_sidecar, encode_hex, envelope_from_reply, file_digest, info_command,
    match_digest, parse_capacity, sidecar_from_reply, sign_command, verify_command, verify_reply, Exchange, Poll, TokenError,
};
use sha3::{Digest, Sha3_512};

fn nonce() -> Vec<u8> {
    encode_hex(&[0xc3; 42])
}

/// What a device answers to a sign command: a nonce, then the signed payload.
fn device_sign_reply(command: &[u8]) -> Vec<u8> {
    assert!(command.starts_with(b"AT+S ") && command.ends_with(b"\r\n"));
    let mut reply = nonce();
    reply.extend_from_slice(&command[5..command.len() - 2]);
    reply
}

#[test]
fn digest_is_sha3_512() {
    let d = file_digest(b"hi");
    assert_eq!(d, Sha3_512::digest(b"hi").to_vec());
    assert_eq!(d.len(), DIGEST_LEN);
    assert_ne!(d, b"hi".to_vec());
}

#[test]
fn info_command_bytes() {
    assert_eq!(info_command(), b"AT+I\r\n".to_vec());
}

#[test]
fn capacity_eight_is_insufficient() {
    let mut ex = Exchange::new(4);
    assert_eq!(ex.on_read(b"NTRU token\r\nfw 1.0\r\nready\r\nmax 8\r\n", 12), Poll::Complete);
    let reply = ex.into_response();
    assert_eq!(parse_capacity(&reply), Some(8));
    assert_eq!(check_capacity(&reply), Err(TokenError::CapacityInsufficient));
}

#[test]
fn capacity_threshold() {
    assert_eq!(check_capacity(b"a\r\nb\r\nc\r\nmax 74"), Ok(74));
    assert_eq!(check_capacity(b"a\r\nb\r\nc\r\nmax 73"), Err(TokenError::CapacityInsufficient));
    assert_eq!(check_capacity(b"max 4096  \n"), Ok(4096));
}

#[test]
fn capacity_needs_a_number() {
    assert_eq!(check_capacity(b"a\r\nmax"), Err(TokenError::ProtocolError));
    assert_eq!(check_capacity(b"max 12\r\n   "), Err(TokenError::ProtocolError));
    assert_eq!(check_capacity(b""), Err(TokenError::ProtocolError));
    assert_eq!(check_capacity(b"max 18446744073709551616"), Err(TokenError::ProtocolError));
    assert_eq!(parse_capacity(b"max 18446744073709551615"), Some(u64::MAX));
}

#[test]
fn sign_command_carries_timestamp_separator_and_digest() {
    let ts: u64 = 1_700_000_000;
    let mut payload = ts.to_le_bytes().to_vec();
    payload.push(b'|');
    payload.extend_from_slice(&Sha3_512::digest(b"hi"));
    let mut expected = b"AT+S ".to_vec();
    expected.extend_from_slice(&encode_hex(&payload));
    expected.extend_from_slice(b"\r\n");
    assert_eq!(sign_command(b"hi", ts), expected);
}

#[test]
fn sign_reply_with_error_fails() {
    assert_eq!(sidecar_from_reply(b"AT+S ERROR"), Err(TokenError::ProtocolError));
}

#[test]
fn sign_reply_becomes_sidecar_line() {
    assert_eq!(sidecar_from_reply(b"abcd"), Ok(b"abcd\r\n".to_vec()));
}

#[test]
fn verify_command_bytes() {
    assert_eq!(verify_command(b"00ff"), b"AT+V 00ff\r\n".to_vec());
}

#[test]
fn hello_txt_scenario() {
    let contents = b"hi";
    let ts: u64 = 1_712_345_678;
    let cmd = sign_command(contents, ts);
    let sidecar = sidecar_from_reply(&device_sign_reply(&cmd)).unwrap();
    assert!(sidecar.ends_with(b"\r\n"));
    let body = check_sidecar(&sidecar).unwrap();
    assert_eq!(verify_command(&body)[..5], b"AT+V "[..]);
    let env = verify_reply(b"OK", &body, contents).unwrap();
    assert_eq!(env.timestamp, ts);
    assert_eq!(env.digest, Sha3_512::digest(b"hi").to_vec());
}

#[test]
fn sign_then_verify_reports_the_file_digest() {
    let files: Vec<Vec<u8>> = vec![Vec::new(), b"x".to_vec(), (0..=255u8).cycle().take(5000).collect()];
    for contents in files {
        let cmd = sign_command(&contents, 42);
        let sidecar = sidecar_from_reply(&device_sign_reply(&cmd)).unwrap();
        let body = check_sidecar(&sidecar).unwrap();
        let env = verify_reply(b"signature valid", &body, &contents).unwrap();
        assert_eq!(env.timestamp, 42);
        assert_eq!(env.digest, Sha3_512::digest(&contents).to_vec());
    }
}

#[test]
fn changed_byte_gives_hash_mismatch() {
    let contents = b"the quick brown fox".to_vec();
    let cmd = sign_command(&contents, 1_000);
    let sidecar = sidecar_from_reply(&device_sign_reply(&cmd)).unwrap();
    let body = check_sidecar(&sidecar).unwrap();
    for at in 0..contents.len() {
        let mut changed = contents.clone();
        changed[at] ^= 0x01;
        assert_eq!(verify_reply(b"OK", &body, &changed).err(), Some(TokenError::HashMismatch));
    }
    let env = verify_reply(b"OK", &body, &contents).unwrap();
    assert_eq!(env.digest, Sha3_512::digest(&contents).to_vec());
}

#[test]
fn verify_reply_with_error_fails() {
    let cmd = sign_command(b"data", 7);
    let sidecar = sidecar_from_reply(&device_sign_reply(&cmd)).unwrap();
    let body = check_sidecar(&sidecar).unwrap();
    assert_eq!(verify_reply(b"ERROR: bad signature", &body, b"data").err(), Some(TokenError::ProtocolError));
}

#[test]
fn verify_steps_in_order() {
    let cmd = sign_command(b"base", 99);
    let sidecar = sidecar_from_reply(&device_sign_reply(&cmd)).unwrap();
    let body = check_sidecar(&sidecar).unwrap();
    assert_eq!(envelope_from_reply(b"ERROR", &body).err(), Some(TokenError::ProtocolError));
    assert_eq!(envelope_from_reply(b"ok", b"short").err(), Some(TokenError::MalformedEnvelope));
    let env = envelope_from_reply(b"ok", &body).unwrap();
    assert_eq!(env.timestamp, 99);
    let env = match_digest(env, b"base").unwrap();
    assert_eq!(env.digest, Sha3_512::digest(b"base").to_vec());
    assert_eq!(match_digest(env, b"other").err(), Some(TokenError::HashMismatch));
}
