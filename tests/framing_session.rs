use ntru_token::framing::{EXCHANGE_DEADLINE_MS, HANDSHAKE_DEADLINE_MS};
use ntru_token::{Exchange, Handshake, Poll};

#[test]
fn handshake_completes_on_a_line_feed() {
    let mut h = Handshake::new();
    assert_eq!(h.on_read(b"", 10), Poll::Pending);
    assert_eq!(h.on_read(b"ok", 30), Poll::Pending);
    assert_eq!(h.on_read(b"\r\n", 60), Poll::Complete);
    assert_eq!(h.received, b"ok\r\n".to_vec());
}

#[test]
fn handshake_times_out_after_its_deadline() {
    let mut h = Handshake::new();
    assert_eq!(h.on_read(b"\r", HANDSHAKE_DEADLINE_MS), Poll::Pending);
    assert_eq!(h.on_read(b"", HANDSHAKE_DEADLINE_MS + 1), Poll::TimedOut);
}

#[test]
fn handshake_line_feed_beats_deadline() {
    let mut h = Handshake::new();
    assert_eq!(h.on_read(b"\n", HANDSHAKE_DEADLINE_MS + 500), Poll::Complete);
}

#[test]
fn exchange_trims_the_last_terminator() {
    let mut ex = Exchange::new(4);
    assert_eq!(ex.on_read(b"Token\r\nv1\r\n", 5), Poll::Pending);
    assert_eq!(ex.on_read(b"fw\r\nmax 200\r\n", 40), Poll::Complete);
    assert_eq!(ex.into_response(), b"Token\r\nv1\r\nfw\r\nmax 200".to_vec());
}

#[test]
fn exchange_drops_surplus_lines() {
    let mut ex = Exchange::new(1);
    assert_eq!(ex.on_read(b"abc\r\nxyz\r\n", 5), Poll::Complete);
    assert_eq!(ex.response(), &b"abc".to_vec());
}

#[test]
fn exchange_counts_line_feeds_across_reads() {
    let mut ex = Exchange::new(2);
    assert_eq!(ex.on_read(b"a\r", 1), Poll::Pending);
    assert_eq!(ex.on_read(b"\nb", 2), Poll::Pending);
    assert_eq!(ex.on_read(b"\r\n", 3), Poll::Complete);
    assert_eq!(ex.into_response(), b"a\r\nb".to_vec());
}

#[test]
fn exchange_times_out_after_its_deadline() {
    let mut ex = Exchange::new(1);
    assert_eq!(ex.on_read(b"partial", EXCHANGE_DEADLINE_MS), Poll::Pending);
    assert_eq!(ex.on_read(b"", EXCHANGE_DEADLINE_MS + 1), Poll::TimedOut);
    assert_eq!(ex.response(), &b"partial".to_vec());
}

#[test]
fn exchange_stops_on_an_exhausted_buffer() {
    let mut ex = Exchange::new(1);
    assert_eq!(ex.on_read(b"a\n\n\n", 0), Poll::Complete);
    assert_eq!(ex.into_response(), Vec::<u8>::new());
}

#[test]
fn exchange_payload_never_ends_in_a_terminator() {
    let inputs: Vec<(&[u8], usize)> = vec![
        (b"one\r\n", 1),
        (b"one\n\rtwo\r\r\n", 1),
        (b"x\r\ny\r\nz\r\nw\r\n", 4),
        (b"x\r\ny\r\nz\r\nw\r\nextra\r\n", 4),
        (b"\r\nlead\n", 2),
    ];
    for (input, n) in inputs {
        let mut ex = Exchange::new(n);
        assert_eq!(ex.on_read(input, 0), Poll::Complete);
        let out = ex.into_response();
        assert!(input.starts_with(&out));
        if let Some(last) = out.last() {
            assert!(*last != b'\r' && *last != b'\n');
        }
    }
}
