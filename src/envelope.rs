//! The signature envelope: hex text made of a device nonce, a little-endian
//! timestamp, a `|` separator and the SHA3-512 digest of the signed file.
//! The device builds it; the host keeps it in the `.sig` sidecar and reads
//! the timestamp and digest back out of it.
use crate::buf::{append_bytes, copy_bytes};
use crate::error::TokenError;
use crate::framing::is_terminator;
use crate::hex::{bytes_of_hex, decode_hex_bytes, hex_of, is_hex_text, lemma_decode_encode};
use vstd::bytes::{
    lemma_auto_spec_u64_to_from_le_bytes, spec_u64_from_le_bytes, spec_u64_to_le_bytes,
    u64_from_le_bytes, u64_to_le_bytes,
};
use vstd::prelude::*;

verus! {

/// Length of the nonce field, in hex characters.
pub const NONCE_HEX_LEN: usize = 84;

/// Length of the timestamp field, in hex characters.
pub const TIMESTAMP_HEX_LEN: usize = 16;

/// Length of the separator field, in hex characters.
pub const SEPARATOR_HEX_LEN: usize = 2;

/// Size of a SHA3-512 digest, in bytes.
pub const DIGEST_LEN: usize = 64;

/// Length of the digest field, in hex characters.
pub const DIGEST_HEX_LEN: usize = 128;

/// Offset of the timestamp field in the envelope text.
pub const TIMESTAMP_OFFSET: usize = 84;

/// Offset of the digest field in the envelope text.
pub const DIGEST_OFFSET: usize = 102;

/// Shortest envelope text: every field up to the end of the digest.
pub const ENVELOPE_HEX_LEN: usize = 230;

/// The byte between the timestamp and the digest.
pub const SEPARATOR: u8 = 0x7c;

/// Largest Unix second that the calendar can represent (the last second of
/// December 31, 262142).
pub const MAX_CALENDAR_SECS: i64 = 8210266876799;

/// Smallest Unix second that the calendar can represent (January 1, -262143).
pub const MIN_CALENDAR_SECS: i64 = -8334601228800;

/// `s` without its trailing CR and LF bytes.
pub open spec fn strip_line_end(s: Seq<u8>) -> Seq<u8>
    decreases s.len(),
{
    if s.len() > 0 && is_terminator(s.last()) {
        strip_line_end(s.drop_last())
    } else {
        s
    }
}

/// The bytes sent to ask for a signature: the timestamp in little-endian
/// order, the separator, and the digest.
pub open spec fn sign_request_of(digest: Seq<u8>, now: u64) -> Seq<u8> {
    spec_u64_to_le_bytes(now) + seq![SEPARATOR] + digest
}

/// Envelope text as the device builds it from a nonce and a sign request.
pub open spec fn envelope_text(nonce: Seq<u8>, now: u64, digest: Seq<u8>) -> Seq<u8> {
    nonce + hex_of(sign_request_of(digest, now))
}

/// What a sidecar file holds once its line end is stripped, if its length
/// is even and reaches the digest field's end.
pub open spec fn sidecar_body(file: Seq<u8>) -> Result<Seq<u8>, TokenError> {
    let t = strip_line_end(file);
    if t.len() % 2 != 0 || t.len() < ENVELOPE_HEX_LEN {
        Err(TokenError::MalformedEnvelope)
    } else {
        Ok(t)
    }
}

/// The timestamp and digest that sidecar text carries, or why it carries none.
pub open spec fn envelope_fields(file: Seq<u8>) -> Result<(u64, Seq<u8>), TokenError> {
    match sidecar_body(file) {
        Err(e) => Err(e),
        Ok(t) => {
            let ts_hex = t.subrange(TIMESTAMP_OFFSET as int, DIGEST_OFFSET - SEPARATOR_HEX_LEN);
            let digest_hex = t.subrange(DIGEST_OFFSET as int, ENVELOPE_HEX_LEN as int);
            if !is_hex_text(ts_hex) || !is_hex_text(digest_hex) {
                Err(TokenError::MalformedEnvelope)
            } else {
                let ts = spec_u64_from_le_bytes(bytes_of_hex(ts_hex));
                if ts == 0 || ts > MAX_CALENDAR_SECS {
                    Err(TokenError::TimestampInvalid)
                } else {
                    Ok((ts, bytes_of_hex(digest_hex)))
                }
            }
        },
    }
}

/// The fields of an envelope that the host reads.
pub struct Envelope {
    /// Creation time, in Unix seconds.
    pub timestamp: u64,
    /// SHA3-512 digest of the signed file.
    pub digest: Vec<u8>,
}

/// Relies on chrono's `DateTime::from_timestamp`, which gives a date exactly
/// for whole seconds inside the calendar's range.
#[verifier::external_body]
fn calendar_accepts(secs: i64) -> (r: bool)
    ensures
        r == (MIN_CALENDAR_SECS <= secs <= MAX_CALENDAR_SECS),
{
    chrono::DateTime::from_timestamp(secs, 0).is_some()
}

/// Copies `s` without its trailing CR and LF bytes.
pub fn strip_line_end_bytes(s: &[u8]) -> (r: Vec<u8>)
    ensures
        r@ == strip_line_end(s@),
{
    let mut r = copy_bytes(s);
    while r.len() > 0 && (r[r.len() - 1] == 0x0d || r[r.len() - 1] == 0x0a)
        invariant
            strip_line_end(r@) == strip_line_end(s@),
        decreases r@.len(),
    {
        r.pop();
    }
    r
}

/// Builds the bytes of a sign request from a file digest and the time.
pub fn build_sign_request(digest: &[u8], now: u64) -> (r: Vec<u8>)
    ensures
        r@ == sign_request_of(digest@, now),
{
    let mut r = u64_to_le_bytes(now);
    r.push(SEPARATOR);
    append_bytes(&mut r, digest);
    assert(r@ =~= sign_request_of(digest@, now));
    r
}

/// Strips the line end of a sidecar file and checks its length. This runs
/// before any device communication for a verification.
pub fn check_sidecar(file: &[u8]) -> (r: Result<Vec<u8>, TokenError>)
    ensures
        r matches Ok(t) ==> sidecar_body(file@) == Ok::<Seq<u8>, TokenError>(t@),
        r matches Err(e) ==> sidecar_body(file@) == Err::<Seq<u8>, TokenError>(e),
{
    let t = strip_line_end_bytes(file);
    if t.len() % 2 != 0 || t.len() < ENVELOPE_HEX_LEN {
        Err(TokenError::MalformedEnvelope)
    } else {
        Ok(t)
    }
}

/// Reads the timestamp and digest out of sidecar text. Fails with
/// `MalformedEnvelope` on a bad length or bad hex in either field, and with
/// `TimestampInvalid` on a zero timestamp or one past the calendar's range.
pub fn parse_envelope(file: &[u8]) -> (r: Result<Envelope, TokenError>)
    ensures
        r matches Ok(e) ==> envelope_fields(file@) == Ok::<(u64, Seq<u8>), TokenError>(
            (e.timestamp, e.digest@),
        ),
        r matches Err(x) ==> envelope_fields(file@) == Err::<(u64, Seq<u8>), TokenError>(x),
{
    let t = match check_sidecar(file) {
        Ok(t) => t,
        Err(e) => {
            return Err(e);
        },
    };
    let ts_bytes = decode_hex_bytes(&t[TIMESTAMP_OFFSET..DIGEST_OFFSET - SEPARATOR_HEX_LEN]);
    let digest = decode_hex_bytes(&t[DIGEST_OFFSET..ENVELOPE_HEX_LEN]);
    match (ts_bytes, digest) {
        (Ok(ts_bytes), Ok(digest)) => {
            let ts = u64_from_le_bytes(ts_bytes.as_slice());
            if ts == 0 || ts > MAX_CALENDAR_SECS as u64 || !calendar_accepts(ts as i64) {
                Err(TokenError::TimestampInvalid)
            } else {
                Ok(Envelope { timestamp: ts, digest })
            }
        },
        _ => Err(TokenError::MalformedEnvelope),
    }
}

pub(crate) proof fn lemma_strip_terminated(s: Seq<u8>, end: Seq<u8>)
    requires
        s.len() > 0,
        !is_terminator(s.last()),
        forall|i: int| 0 <= i < end.len() ==> is_terminator(#[trigger] end[i]),
    ensures
        strip_line_end(s + end) == s,
    decreases end.len(),
{
    if end.len() == 0 {
        assert(s + end =~= s);
    } else {
        assert((s + end).drop_last() =~= s + end.drop_last());
        lemma_strip_terminated(s, end.drop_last());
    }
}

/// Parsing an envelope built with this layout gives back the timestamp and
/// digest that went into it, whatever the nonce and whatever line end follows.
pub proof fn lemma_parse_built_envelope(
    nonce: Seq<u8>,
    now: u64,
    digest: Seq<u8>,
    line_end: Seq<u8>,
)
    requires
        nonce.len() == NONCE_HEX_LEN,
        digest.len() == DIGEST_LEN,
        0 < now <= MAX_CALENDAR_SECS,
        forall|i: int| 0 <= i < line_end.len() ==> is_terminator(#[trigger] line_end[i]),
    ensures
        envelope_fields(envelope_text(nonce, now, digest) + line_end) == Ok::<
            (u64, Seq<u8>),
            TokenError,
        >((now, digest)),
{
    let req = sign_request_of(digest, now);
    let text = envelope_text(nonce, now, digest);
    lemma_auto_spec_u64_to_from_le_bytes();
    assert(req.len() == 73);
    let h = hex_of(req);
    assert(text.len() == 230);
    assert(text.last() == h[145]);
    assert(req[72] == digest[63]);
    assert(digest[63] / 16 < 16);
    lemma_strip_terminated(text, line_end);
    let le = spec_u64_to_le_bytes(now);
    assert(text.subrange(84, 100) =~= hex_of(le)) by {
        assert forall|j: int| 0 <= j < 16 implies #[trigger] text.subrange(84, 100)[j] == hex_of(
            le,
        )[j] by {
            assert(text[84 + j] == h[j]);
            assert(req[j / 2] == le[j / 2]);
        }
    }
    assert(text.subrange(102, 230) =~= hex_of(digest)) by {
        assert forall|j: int| 0 <= j < 128 implies #[trigger] text.subrange(102, 230)[j]
            == hex_of(digest)[j] by {
            assert(text[102 + j] == h[18 + j]);
            assert((18 + j) / 2 == 9 + j / 2);
            assert((18 + j) % 2 == j % 2);
            assert(req[9 + j / 2] == digest[j / 2]);
        }
    }
    lemma_decode_encode(le);
    lemma_decode_encode(digest);
}

} // verus!
