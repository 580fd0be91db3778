//! Hex transcoding: each byte as two hex digits, high nibble first.
use crate::error::TokenError;
use vstd::prelude::*;
use vstd::string::StringSliceAdditionalSpecFns;

verus! {

/// An ASCII hex digit, in either case.
pub open spec fn is_hex_digit(c: u8) -> bool {
    (0x30 <= c <= 0x39) || (0x61 <= c <= 0x66) || (0x41 <= c <= 0x46)
}

/// The value of an ASCII hex digit.
pub open spec fn hex_value(c: u8) -> int {
    if 0x30 <= c <= 0x39 {
        c - 0x30
    } else if 0x61 <= c <= 0x66 {
        c - 0x61 + 10
    } else {
        c - 0x41 + 10
    }
}

/// The lowercase ASCII hex digit for a nibble.
pub open spec fn hex_digit(v: int) -> u8 {
    if v < 10 {
        (0x30 + v) as u8
    } else {
        (0x61 + v - 10) as u8
    }
}

/// Two lowercase hex digits per byte, high nibble first.
pub open spec fn hex_of(b: Seq<u8>) -> Seq<u8> {
    Seq::new(
        2 * b.len(),
        |j: int|
            if j % 2 == 0 {
                hex_digit(b[j / 2] as int / 16)
            } else {
                hex_digit(b[j / 2] as int % 16)
            },
    )
}

/// Text that decodes: an even number of hex digits.
pub open spec fn is_hex_text(t: Seq<u8>) -> bool {
    t.len() % 2 == 0 && forall|j: int| 0 <= j < t.len() ==> is_hex_digit(#[trigger] t[j])
}

/// The byte that the two digits at `2 * i` and `2 * i + 1` stand for.
pub open spec fn hex_pair(t: Seq<u8>, i: int) -> u8 {
    (hex_value(t[2 * i]) * 16 + hex_value(t[2 * i + 1])) as u8
}

/// The bytes that hex text stands for.
pub open spec fn bytes_of_hex(t: Seq<u8>) -> Seq<u8> {
    Seq::new(t.len() / 2, |i: int| hex_pair(t, i))
}

fn nibble_digit(v: u8) -> (c: u8)
    requires
        v < 16,
    ensures
        c == hex_digit(v as int),
{
    if v < 10 {
        0x30 + v
    } else {
        0x61 + v - 10
    }
}

fn digit_value(c: u8) -> (r: Option<u8>)
    ensures
        r.is_some() == is_hex_digit(c),
        r.is_some() ==> r.unwrap() as int == hex_value(c) && r.unwrap() < 16,
{
    if 0x30 <= c && c <= 0x39 {
        Some(c - 0x30)
    } else if 0x61 <= c && c <= 0x66 {
        Some(c - 0x61 + 10)
    } else if 0x41 <= c && c <= 0x46 {
        Some(c - 0x41 + 10)
    } else {
        None
    }
}

/// Encodes bytes as lowercase hex text.
pub fn encode_hex(b: &[u8]) -> (r: Vec<u8>)
    requires
        b@.len() <= usize::MAX / 2,
    ensures
        r@ == hex_of(b@),
{
    let mut r: Vec<u8> = Vec::new();
    let mut i: usize = 0;
    while i < b.len()
        invariant
            i <= b@.len() <= usize::MAX / 2,
            r@ =~= hex_of(b@.subrange(0, i as int)),
        decreases b@.len() - i,
    {
        let x = b[i];
        r.push(nibble_digit(x / 16));
        r.push(nibble_digit(x % 16));
        i = i + 1;
        assert(r@ =~= hex_of(b@.subrange(0, i as int)));
    }
    assert(b@.subrange(0, i as int) =~= b@);
    r
}

/// Decodes hex text given as bytes. Fails with `MalformedEnvelope` exactly
/// when the length is odd or a byte is not a hex digit.
pub fn decode_hex_bytes(t: &[u8]) -> (r: Result<Vec<u8>, TokenError>)
    ensures
        r.is_ok() == is_hex_text(t@),
        r matches Ok(v) ==> v@ == bytes_of_hex(t@),
        r matches Err(e) ==> e == TokenError::MalformedEnvelope,
{
    if t.len() % 2 != 0 {
        return Err(TokenError::MalformedEnvelope);
    }
    let n = t.len() / 2;
    let mut r: Vec<u8> = Vec::new();
    let mut i: usize = 0;
    while i < n
        invariant
            n == t@.len() / 2,
            t@.len() == 2 * n,
            2 * n <= usize::MAX,
            t@.len() % 2 == 0,
            i <= n,
            r@.len() == i,
            forall|k: int| 0 <= k < i ==> r@[k] == hex_pair(t@, k),
            forall|j: int| 0 <= j < 2 * i ==> is_hex_digit(#[trigger] t@[j]),
        decreases n - i,
    {
        let hi = digit_value(t[2 * i]);
        let lo = digit_value(t[2 * i + 1]);
        match (hi, lo) {
            (Some(h), Some(l)) => {
                r.push(h * 16 + l);
                i = i + 1;
            },
            _ => {
                assert(!is_hex_digit(t@[2 * i as int]) || !is_hex_digit(t@[2 * i + 1]));
                return Err(TokenError::MalformedEnvelope);
            },
        }
    }
    assert(r@ =~= bytes_of_hex(t@));
    Ok(r)
}

/// Decodes hex text. Fails with `MalformedEnvelope` exactly when the text's
/// length is odd or it holds a character that is not a hex digit.
pub fn decode_hex(s: &str) -> (r: Result<Vec<u8>, TokenError>)
    ensures
        r.is_ok() == is_hex_text(s.spec_bytes()),
        r matches Ok(v) ==> v@ == bytes_of_hex(s.spec_bytes()),
        r matches Err(e) ==> e == TokenError::MalformedEnvelope,
{
    decode_hex_bytes(s.as_bytes())
}

/// Decoding undoes encoding: the hex text of any bytes decodes to those bytes.
pub proof fn lemma_decode_encode(b: Seq<u8>)
    ensures
        is_hex_text(hex_of(b)),
        bytes_of_hex(hex_of(b)) == b,
{
    let t = hex_of(b);
    assert forall|j: int| 0 <= j < t.len() implies is_hex_digit(#[trigger] t[j]) by {
        assert(b[j / 2] / 16 < 16);
    }
    assert forall|i: int| 0 <= i < b.len() implies #[trigger] hex_pair(t, i) == b[i] by {
        assert((2 * i) / 2 == i);
        assert((2 * i + 1) / 2 == i);
        assert((2 * i) % 2 == 0);
        assert((2 * i + 1) % 2 == 1);
    }
    assert(bytes_of_hex(t) =~= b);
}

} // verus!
