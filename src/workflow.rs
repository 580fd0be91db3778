//! The sign and verify workflows, as the steps between device exchanges:
//! the capacity check on the info reply, the commands to send, and what a
//! reply to a sign or verify command decides.
use crate::buf::{append_bytes, bytes_equal, copy_bytes};
use crate::envelope::{
    build_sign_request, envelope_fields, envelope_text, lemma_parse_built_envelope,
    lemma_strip_terminated, parse_envelope, sidecar_body, sign_request_of, Envelope, DIGEST_LEN,
    MAX_CALENDAR_SECS, NONCE_HEX_LEN,
};
use crate::error::TokenError;
use crate::framing::is_terminator;
use crate::hex::{encode_hex, hex_of, is_hex_digit, is_hex_text};
use vstd::bytes::lemma_auto_spec_u64_to_from_le_bytes;
use vstd::prelude::*;

verus! {

/// Lines in the device's answer to the info command.
pub const INFO_LINES: usize = 4;

/// Lines in the device's answer to a sign or verify command.
pub const REPLY_LINES: usize = 1;

/// Smallest message capacity that fits a digest, a timestamp, the separator
/// and a line end.
pub const MIN_CAPACITY: u64 = 74;

/// The SHA3-512 digest of `data`.
pub uninterp spec fn sha3_512_of(data: Seq<u8>) -> Seq<u8>;

/// Relies on sha3's `Sha3_512` through `Digest::digest`: the SHA3-512 hash
/// of the bytes, whose output size is 64 bytes.
#[verifier::external_body]
fn sha3_512(data: &[u8]) -> (r: Vec<u8>)
    ensures
        r@ == sha3_512_of(data@),
        r@.len() == DIGEST_LEN,
{
    <sha3::Sha3_512 as sha3::Digest>::digest(data).to_vec()
}

/// Carriage return and line feed.
pub open spec fn crlf() -> Seq<u8> {
    seq![0x0du8, 0x0a]
}

/// The bytes of `ERROR`.
pub open spec fn error_word() -> Seq<u8> {
    seq![0x45u8, 0x52, 0x52, 0x4f, 0x52]
}

/// A reply that holds the word `ERROR`.
pub open spec fn has_error(s: Seq<u8>) -> bool {
    exists|i: int| 0 <= i && i + 5 <= s.len() && #[trigger] s.subrange(i, i + 5) == error_word()
}

/// ASCII whitespace.
pub open spec fn is_space(c: u8) -> bool {
    c == 0x20 || (0x09 <= c <= 0x0d)
}

/// The bytes after the last line feed of `s`.
pub open spec fn line_tail(s: Seq<u8>) -> Seq<u8>
    decreases s.len(),
{
    if s.len() == 0 || s.last() == 0x0a {
        Seq::empty()
    } else {
        line_tail(s.drop_last()).push(s.last())
    }
}

/// The last line of `s`; a line feed at the very end closes that line.
pub open spec fn last_line(s: Seq<u8>) -> Seq<u8> {
    if s.len() > 0 && s.last() == 0x0a {
        line_tail(s.drop_last())
    } else {
        line_tail(s)
    }
}

/// `s` without its trailing whitespace.
pub open spec fn trim_space_end(s: Seq<u8>) -> Seq<u8>
    decreases s.len(),
{
    if s.len() > 0 && is_space(s.last()) {
        trim_space_end(s.drop_last())
    } else {
        s
    }
}

/// The bytes after the last whitespace of `s`.
pub open spec fn word_tail(s: Seq<u8>) -> Seq<u8>
    decreases s.len(),
{
    if s.len() == 0 || is_space(s.last()) {
        Seq::empty()
    } else {
        word_tail(s.drop_last()).push(s.last())
    }
}

/// The last whitespace-delimited word of `s` (empty where there is none).
pub open spec fn last_word(s: Seq<u8>) -> Seq<u8> {
    word_tail(trim_space_end(s))
}

/// Decimal digits, at least one.
pub open spec fn is_decimal(t: Seq<u8>) -> bool {
    t.len() > 0 && forall|i: int| 0 <= i < t.len() ==> 0x30 <= #[trigger] t[i] <= 0x39
}

/// The number that decimal digits stand for.
pub open spec fn decimal_value(t: Seq<u8>) -> nat
    decreases t.len(),
{
    if t.len() == 0 {
        0
    } else {
        decimal_value(t.drop_last()) * 10 + (t.last() - 0x30) as nat
    }
}

/// The message capacity that the info reply states: the last word of its
/// last line, as a decimal number that fits in 64 bits.
pub open spec fn capacity_of(reply: Seq<u8>) -> Option<u64> {
    let w = last_word(last_line(reply));
    if is_decimal(w) && decimal_value(w) <= u64::MAX {
        Some(decimal_value(w) as u64)
    } else {
        None
    }
}

/// What the info reply decides: a capacity large enough, or why not.
pub open spec fn capacity_outcome(reply: Seq<u8>) -> Result<u64, TokenError> {
    match capacity_of(reply) {
        None => Err(TokenError::ProtocolError),
        Some(c) => if c < MIN_CAPACITY {
            Err(TokenError::CapacityInsufficient)
        } else {
            Ok(c)
        },
    }
}

/// The hex payload of the sign command for a file's contents.
pub open spec fn sign_payload(contents: Seq<u8>, now: u64) -> Seq<u8> {
    hex_of(sign_request_of(sha3_512_of(contents), now))
}

/// What the reply to a sign command decides: the sidecar file's contents.
pub open spec fn sidecar_outcome(reply: Seq<u8>) -> Result<Seq<u8>, TokenError> {
    if has_error(reply) {
        Err(TokenError::ProtocolError)
    } else {
        Ok(reply + crlf())
    }
}

/// What the reply to a verify command decides, given the sidecar's text:
/// the envelope's timestamp and digest, or why there are none.
pub open spec fn reply_outcome(reply: Seq<u8>, body: Seq<u8>) -> Result<(u64, Seq<u8>), TokenError> {
    if has_error(reply) {
        Err(TokenError::ProtocolError)
    } else {
        envelope_fields(body)
    }
}

/// What the reply to a verify command decides, given the sidecar's text and
/// the base file's contents: the envelope's timestamp and digest, or why
/// the signature does not hold.
pub open spec fn verify_outcome(reply: Seq<u8>, body: Seq<u8>, base: Seq<u8>) -> Result<
    (u64, Seq<u8>),
    TokenError,
> {
    match reply_outcome(reply, body) {
        Err(e) => Err(e),
        Ok(f) => if f.1 != sha3_512_of(base) {
            Err(TokenError::HashMismatch)
        } else {
            Ok(f)
        },
    }
}

fn crlf_bytes() -> (r: Vec<u8>)
    ensures
        r@ == crlf(),
{
    let r: Vec<u8> = vec![0x0d, 0x0a];
    assert(r@ =~= crlf());
    r
}

/// Whether the reply holds the word `ERROR`.
pub fn reply_has_error(reply: &[u8]) -> (r: bool)
    ensures
        r == has_error(reply@),
{
    let w: Vec<u8> = vec![0x45, 0x52, 0x52, 0x4f, 0x52];
    assert(w@ =~= error_word());
    if reply.len() < 5 {
        return false;
    }
    let mut i: usize = 0;
    while i <= reply.len() - 5
        invariant
            w@ == error_word(),
            5 <= reply@.len(),
            i <= reply@.len() - 4,
            forall|k: int| 0 <= k < i ==> #[trigger] reply@.subrange(k, k + 5) != error_word(),
        decreases reply@.len() - i,
    {
        if bytes_equal(&reply[i..i + 5], w.as_slice()) {
            return true;
        }
        i = i + 1;
    }
    false
}

proof fn lemma_value_prefix(t: Seq<u8>, j: int)
    requires
        0 <= j <= t.len(),
    ensures
        decimal_value(t.subrange(0, j)) <= decimal_value(t),
    decreases t.len(),
{
    if j < t.len() {
        assert(t.drop_last().subrange(0, j) =~= t.subrange(0, j));
        lemma_value_prefix(t.drop_last(), j);
    } else {
        assert(t.subrange(0, j) =~= t);
    }
}

/// Parses a word of decimal digits into a 64-bit number.
fn parse_decimal(t: &[u8]) -> (r: Option<u64>)
    ensures
        r == (if is_decimal(t@) && decimal_value(t@) <= u64::MAX {
            Some(decimal_value(t@) as u64)
        } else {
            None
        }),
{
    if t.len() == 0 {
        return None;
    }
    let mut acc: u64 = 0;
    let mut i: usize = 0;
    while i < t.len()
        invariant
            0 < t@.len(),
            i <= t@.len(),
            acc == decimal_value(t@.subrange(0, i as int)),
            forall|k: int| 0 <= k < i ==> 0x30 <= #[trigger] t@[k] <= 0x39,
        decreases t@.len() - i,
    {
        let c = t[i];
        if c < 0x30 || c > 0x39 {
            return None;
        }
        let d = (c - 0x30) as u64;
        assert(t@.subrange(0, i + 1).drop_last() =~= t@.subrange(0, i as int));
        if acc > (u64::MAX - d) / 10 {
            proof {
                lemma_value_prefix(t@, i + 1);
            }
            return None;
        }
        acc = acc * 10 + d;
        i = i + 1;
    }
    assert(t@.subrange(0, i as int) =~= t@);
    Some(acc)
}

/// The start of the line that ends at `end`.
fn line_start(s: &[u8], end: usize) -> (r: usize)
    requires
        end <= s@.len(),
    ensures
        r <= end,
        line_tail(s@.subrange(0, end as int)) == s@.subrange(r as int, end as int),
{
    let mut start = end;
    while start > 0 && s[start - 1] != 0x0a
        invariant
            start <= end <= s@.len(),
            line_tail(s@.subrange(0, end as int)) == line_tail(s@.subrange(0, start as int))
                + s@.subrange(start as int, end as int),
        decreases start,
    {
        proof {
            let p = s@.subrange(0, start as int);
            assert(p.drop_last() =~= s@.subrange(0, start - 1));
            assert(line_tail(s@.subrange(0, start - 1)).push(p.last()) + s@.subrange(
                start as int,
                end as int,
            ) =~= line_tail(s@.subrange(0, start - 1)) + s@.subrange(start - 1, end as int));
        }
        start = start - 1;
    }
    assert(line_tail(s@.subrange(0, start as int)) =~= Seq::<u8>::empty());
    assert(Seq::<u8>::empty() + s@.subrange(start as int, end as int) =~= s@.subrange(
        start as int,
        end as int,
    ));
    start
}

/// Reads the message capacity out of the reply to the info command.
pub fn parse_capacity(reply: &[u8]) -> (r: Option<u64>)
    ensures
        r == capacity_of(reply@),
{
    let n = reply.len();
    let end = if n > 0 && reply[n - 1] == 0x0a {
        n - 1
    } else {
        n
    };
    assert(reply@.subrange(0, n as int) =~= reply@);
    assert(n > 0 && reply@.last() == 0x0a ==> reply@.drop_last() =~= reply@.subrange(
        0,
        end as int,
    ));
    let start = line_start(reply, end);
    let line = &reply[start..end];
    let mut tend = line.len();
    assert(line@.subrange(0, line@.len() as int) =~= line@);
    while tend > 0 && (line[tend - 1] == 0x20 || (0x09 <= line[tend - 1] && line[tend - 1]
        <= 0x0d))
        invariant
            tend <= line@.len(),
            trim_space_end(line@) == trim_space_end(line@.subrange(0, tend as int)),
        decreases tend,
    {
        assert(line@.subrange(0, tend as int).drop_last() =~= line@.subrange(0, tend - 1));
        tend = tend - 1;
    }
    assert(line@.subrange(0, line@.len() as int) =~= line@);
    let word_end = &line[0..tend];
    assert(trim_space_end(word_end@) == word_end@);
    let mut wstart = tend;
    assert(word_end@.subrange(0, tend as int) =~= word_end@);
    assert(word_tail(word_end@) + word_end@.subrange(tend as int, tend as int) =~= word_tail(
        word_end@,
    ));
    while wstart > 0 && !(word_end[wstart - 1] == 0x20 || (0x09 <= word_end[wstart - 1]
        && word_end[wstart - 1] <= 0x0d))
        invariant
            wstart <= tend == word_end@.len(),
            word_tail(word_end@) == word_tail(word_end@.subrange(0, wstart as int))
                + word_end@.subrange(wstart as int, tend as int),
        decreases wstart,
    {
        proof {
            let p = word_end@.subrange(0, wstart as int);
            assert(p.drop_last() =~= word_end@.subrange(0, wstart - 1));
            assert(word_tail(word_end@.subrange(0, wstart - 1)).push(p.last())
                + word_end@.subrange(wstart as int, tend as int) =~= word_tail(
                word_end@.subrange(0, wstart - 1),
            ) + word_end@.subrange(wstart - 1, tend as int));
        }
        wstart = wstart - 1;
    }
    assert(word_end@.subrange(0, tend as int) =~= word_end@);
    assert(word_tail(word_end@.subrange(0, wstart as int)) =~= Seq::<u8>::empty());
    assert(Seq::<u8>::empty() + word_end@.subrange(wstart as int, tend as int) =~= word_end@.subrange(
        wstart as int,
        tend as int,
    ));
    parse_decimal(&word_end[wstart..tend])
}

/// Checks the reply to the info command: the capacity it states must fit
/// a sign or verify command. Fails with `ProtocolError` where the reply
/// states no capacity, and with `CapacityInsufficient` where it is too small.
pub fn check_capacity(reply: &[u8]) -> (r: Result<u64, TokenError>)
    ensures
        r == capacity_outcome(reply@),
{
    match parse_capacity(reply) {
        None => Err(TokenError::ProtocolError),
        Some(c) => if c < MIN_CAPACITY {
            Err(TokenError::CapacityInsufficient)
        } else {
            Ok(c)
        },
    }
}

/// The info command, `AT+I` and a line end.
pub fn info_command() -> (r: Vec<u8>)
    ensures
        r@ == seq![0x41u8, 0x54, 0x2b, 0x49] + crlf(),
{
    let r: Vec<u8> = vec![0x41, 0x54, 0x2b, 0x49, 0x0d, 0x0a];
    assert(r@ =~= seq![0x41u8, 0x54, 0x2b, 0x49] + crlf());
    r
}

/// The SHA3-512 digest of a file's contents.
pub fn file_digest(contents: &[u8]) -> (r: Vec<u8>)
    ensures
        r@ == sha3_512_of(contents@),
        r@.len() == DIGEST_LEN,
{
    sha3_512(contents)
}

/// The sign command for a file's contents at time `now`: `AT+S `, the hex
/// text of the sign request, and a line end.
pub fn sign_command(contents: &[u8], now: u64) -> (r: Vec<u8>)
    ensures
        r@ == seq![0x41u8, 0x54, 0x2b, 0x53, 0x20] + sign_payload(contents@, now) + crlf(),
{
    let digest = file_digest(contents);
    let request = build_sign_request(digest.as_slice(), now);
    proof {
        lemma_auto_spec_u64_to_from_le_bytes();
    }
    let payload = encode_hex(request.as_slice());
    let mut r: Vec<u8> = vec![0x41, 0x54, 0x2b, 0x53, 0x20];
    let ghost head = r@;
    append_bytes(&mut r, payload.as_slice());
    let end = crlf_bytes();
    append_bytes(&mut r, end.as_slice());
    assert(head =~= seq![0x41u8, 0x54, 0x2b, 0x53, 0x20]);
    r
}

/// What the reply to a sign command decides: a reply holding `ERROR` fails
/// with `ProtocolError`; any other is the envelope, written to the sidecar
/// file with a line end.
pub fn sidecar_from_reply(reply: &[u8]) -> (r: Result<Vec<u8>, TokenError>)
    ensures
        r matches Ok(v) ==> sidecar_outcome(reply@) == Ok::<Seq<u8>, TokenError>(v@),
        r matches Err(e) ==> sidecar_outcome(reply@) == Err::<Seq<u8>, TokenError>(e),
{
    if reply_has_error(reply) {
        return Err(TokenError::ProtocolError);
    }
    let mut r = copy_bytes(reply);
    let end = crlf_bytes();
    append_bytes(&mut r, end.as_slice());
    Ok(r)
}

/// The verify command for the sidecar's text: `AT+V `, the text as it
/// stands, and a line end.
pub fn verify_command(body: &[u8]) -> (r: Vec<u8>)
    ensures
        r@ == seq![0x41u8, 0x54, 0x2b, 0x56, 0x20] + body@ + crlf(),
{
    let mut r: Vec<u8> = vec![0x41, 0x54, 0x2b, 0x56, 0x20];
    let ghost head = r@;
    append_bytes(&mut r, body);
    let end = crlf_bytes();
    append_bytes(&mut r, end.as_slice());
    assert(head =~= seq![0x41u8, 0x54, 0x2b, 0x56, 0x20]);
    r
}

/// What the reply to a verify command decides before the base file is
/// read: a reply holding `ERROR` fails with `ProtocolError`; otherwise the
/// envelope is parsed out of the sidecar's text.
pub fn envelope_from_reply(reply: &[u8], body: &[u8]) -> (r: Result<Envelope, TokenError>)
    ensures
        r matches Ok(e) ==> reply_outcome(reply@, body@) == Ok::<(u64, Seq<u8>), TokenError>(
            (e.timestamp, e.digest@),
        ),
        r matches Err(x) ==> reply_outcome(reply@, body@) == Err::<(u64, Seq<u8>), TokenError>(
            x,
        ),
{
    if reply_has_error(reply) {
        return Err(TokenError::ProtocolError);
    }
    parse_envelope(body)
}

/// Checks the envelope's digest against the base file's SHA3-512 digest;
/// fails with `HashMismatch` where they differ.
pub fn match_digest(env: Envelope, base: &[u8]) -> (r: Result<Envelope, TokenError>)
    ensures
        env.digest@ == sha3_512_of(base@) ==> (r matches Ok(e) && e.timestamp == env.timestamp
            && e.digest@ == env.digest@),
        env.digest@ != sha3_512_of(base@) ==> r == Err::<Envelope, TokenError>(
            TokenError::HashMismatch,
        ),
{
    let digest = file_digest(base);
    if !bytes_equal(digest.as_slice(), env.digest.as_slice()) {
        return Err(TokenError::HashMismatch);
    }
    Ok(env)
}

/// What the reply to a verify command decides, with the base file's
/// contents: `envelope_from_reply`, then `match_digest`.
pub fn verify_reply(reply: &[u8], body: &[u8], base: &[u8]) -> (r: Result<Envelope, TokenError>)
    ensures
        r matches Ok(e) ==> verify_outcome(reply@, body@, base@) == Ok::<
            (u64, Seq<u8>),
            TokenError,
        >((e.timestamp, e.digest@)),
        r matches Err(x) ==> verify_outcome(reply@, body@, base@) == Err::<
            (u64, Seq<u8>),
            TokenError,
        >(x),
{
    match envelope_from_reply(reply, body) {
        Ok(env) => match_digest(env, base),
        Err(e) => Err(e),
    }
}

proof fn lemma_hex_text_has_no_error(t: Seq<u8>)
    requires
        forall|j: int| 0 <= j < t.len() ==> is_hex_digit(#[trigger] t[j]),
    ensures
        !has_error(t),
{
    if has_error(t) {
        let i = choose|i: int|
            0 <= i && i + 5 <= t.len() && #[trigger] t.subrange(i, i + 5) == error_word();
        assert(t.subrange(i, i + 5)[1] == t[i + 1]);
        assert(is_hex_digit(t[i + 1]));
    }
}

proof fn lemma_signed_reply(contents: Seq<u8>, now: u64, nonce: Seq<u8>)
    requires
        nonce.len() == NONCE_HEX_LEN,
        is_hex_text(nonce),
        0 < now <= MAX_CALENDAR_SECS,
        sha3_512_of(contents).len() == DIGEST_LEN,
    ensures
        ({
            let reply = nonce + sign_payload(contents, now);
            &&& reply == envelope_text(nonce, now, sha3_512_of(contents))
            &&& sidecar_outcome(reply) == Ok::<Seq<u8>, TokenError>(reply + crlf())
            &&& sidecar_body(reply + crlf()) == Ok::<Seq<u8>, TokenError>(reply)
            &&& envelope_fields(reply) == Ok::<(u64, Seq<u8>), TokenError>(
                (now, sha3_512_of(contents)),
            )
        }),
{
    let d = sha3_512_of(contents);
    let reply = nonce + sign_payload(contents, now);
    let h = sign_payload(contents, now);
    lemma_auto_spec_u64_to_from_le_bytes();
    assert(sign_request_of(d, now).len() == 73);
    assert forall|j: int| 0 <= j < reply.len() implies is_hex_digit(#[trigger] reply[j]) by {
        if j >= nonce.len() {
            let k = j - nonce.len();
            assert(reply[j] == h[k]);
            let b = sign_request_of(d, now)[k / 2];
            assert(b / 16 < 16);
        }
    }
    lemma_hex_text_has_no_error(reply);
    assert(reply.last() == h[145]);
    let last = sign_request_of(d, now)[72];
    assert(last / 16 < 16);
    assert(crlf()[0] == 0x0d && crlf()[1] == 0x0a);
    assert(forall|i: int| 0 <= i < crlf().len() ==> is_terminator(#[trigger] crlf()[i]));
    lemma_strip_terminated(reply, crlf());
    lemma_parse_built_envelope(nonce, now, d, Seq::empty());
    assert(envelope_text(nonce, now, d) + Seq::<u8>::empty() =~= reply);
}

/// Signing a file and then verifying the sidecar against the same file
/// succeeds: whatever hex nonce the device puts before the signed payload,
/// the sidecar written from its reply passes the length check, and any
/// non-error answer to the verify command yields the signing time and the
/// file's SHA3-512 digest.
pub proof fn lemma_sign_then_verify(
    contents: Seq<u8>,
    now: u64,
    nonce: Seq<u8>,
    verify_ack: Seq<u8>,
)
    requires
        nonce.len() == NONCE_HEX_LEN,
        is_hex_text(nonce),
        0 < now <= MAX_CALENDAR_SECS,
        sha3_512_of(contents).len() == DIGEST_LEN,
        !has_error(verify_ack),
    ensures
        ({
            let reply = nonce + sign_payload(contents, now);
            &&& sidecar_outcome(reply) == Ok::<Seq<u8>, TokenError>(reply + crlf())
            &&& sidecar_body(reply + crlf()) == Ok::<Seq<u8>, TokenError>(reply)
            &&& verify_outcome(verify_ack, reply, contents) == Ok::<
                (u64, Seq<u8>),
                TokenError,
            >((now, sha3_512_of(contents)))
        }),
{
    lemma_signed_reply(contents, now, nonce);
}

/// Changing one byte of the signed file makes verification fail with
/// `HashMismatch`, while the digest in the sidecar stays the signed one.
/// This holds wherever the changed file's SHA3-512 digest differs from the
/// signed file's.
pub proof fn lemma_modified_file_mismatch(
    contents: Seq<u8>,
    now: u64,
    nonce: Seq<u8>,
    verify_ack: Seq<u8>,
    at: int,
    byte: u8,
)
    requires
        nonce.len() == NONCE_HEX_LEN,
        is_hex_text(nonce),
        0 < now <= MAX_CALENDAR_SECS,
        sha3_512_of(contents).len() == DIGEST_LEN,
        !has_error(verify_ack),
        0 <= at < contents.len(),
        byte != contents[at],
        sha3_512_of(contents.update(at, byte)) != sha3_512_of(contents),
    ensures
        ({
            let reply = nonce + sign_payload(contents, now);
            &&& envelope_fields(reply) == Ok::<(u64, Seq<u8>), TokenError>(
                (now, sha3_512_of(contents)),
            )
            &&& verify_outcome(verify_ack, reply, contents.update(at, byte)) == Err::<
                (u64, Seq<u8>),
                TokenError,
            >(TokenError::HashMismatch)
        }),
{
    lemma_signed_reply(contents, now, nonce);
}

} // verus!
